//! Business field definitions: the preset extension fields per business type,
//! and the merge of one field value into a document's JSON field snapshot.

use vstd::prelude::*;

use crate::entities::opt_chars;
use crate::text::{chars_of, is_blank, is_blank_exec, push_text, string_of};

verus! {

/// A field definition (preset or added by the user).
#[derive(Debug, Clone)]
pub struct FieldDef {
    pub id: i64,
    pub biz_type: String,
    pub field_key: String,
    pub field_label: String,
    pub field_type: String,
    pub options: Option<String>,
    pub is_preset: bool,
}

/// A stored definition row; the preset flag is stored as an integer.
pub fn field_def_of(
    id: i64,
    biz_type: String,
    field_key: String,
    field_label: String,
    field_type: String,
    options: Option<String>,
    preset_flag: i64,
) -> (d: FieldDef)
    ensures
        d.id == id,
        d.biz_type == biz_type,
        d.field_key == field_key,
        d.field_label == field_label,
        d.field_type == field_type,
        d.options == options,
        d.is_preset == (preset_flag != 0),
{
    FieldDef { id, biz_type, field_key, field_label, field_type, options, is_preset: preset_flag != 0 }
}

/// A preset extension field: business type, key, label, type, and the options
/// of a select field as a JSON array.
#[derive(Debug, Clone)]
pub struct PresetField {
    pub biz_type: String,
    pub field_key: String,
    pub field_label: String,
    pub field_type: String,
    pub options: Option<String>,
}

pub open spec fn preset_view(p: PresetField) -> (Seq<char>, Seq<char>, Seq<char>, Seq<char>, Option<Seq<char>>) {
    (p.biz_type@, p.field_key@, p.field_label@, p.field_type@, opt_chars(p.options))
}

/// The preset extension fields, in seeding order.
pub open spec fn presets() -> Seq<(Seq<char>, Seq<char>, Seq<char>, Seq<char>, Option<Seq<char>>)> {
    seq![
        ("客户"@, "industry"@, "行业"@, "text"@, None),
        ("客户"@, "contact"@, "联系人"@, "text"@, None),
        ("客户"@, "phone"@, "联系电话"@, "text"@, None),
        ("客户"@, "level"@, "客户等级"@, "select"@, Some("[\"A\",\"B\",\"C\"]"@)),
        ("合同"@, "amount"@, "合同金额"@, "number"@, None),
        ("合同"@, "effective_date"@, "生效日期"@, "date"@, None),
        ("合同"@, "expire_date"@, "到期日期"@, "date"@, None),
        ("项目"@, "period"@, "项目周期"@, "text"@, None),
        ("项目"@, "budget"@, "预算"@, "number"@, None),
        ("供应商"@, "category"@, "供应品类"@, "text"@, None),
        ("供应商"@, "settlement"@, "结算方式"@, "select"@, Some("[\"月结\",\"现结\",\"预收\"]"@)),
        ("资质"@, "valid_until"@, "有效期至"@, "date"@, None),
        ("资质"@, "issuer"@, "发证机构"@, "text"@, None),
    ]
}

fn preset(biz: &str, key: &str, label: &str, ftype: &str, options: Option<&str>) -> (p: PresetField)
    ensures
        preset_view(p) == (biz@, key@, label@, ftype@, match options {
            Some(o) => Some(o@),
            None => None,
        }),
{
    PresetField {
        biz_type: biz.to_string(),
        field_key: key.to_string(),
        field_label: label.to_string(),
        field_type: ftype.to_string(),
        options: match options {
            Some(o) => Some(o.to_string()),
            None => None,
        },
    }
}

/// The preset extension fields (the base columns of a document are not among
/// them).
pub fn preset_fields() -> (r: Vec<PresetField>)
    ensures
        r@.map_values(|p: PresetField| preset_view(p)) == presets(),
{
    let mut r: Vec<PresetField> = Vec::new();
    r.push(preset("客户", "industry", "行业", "text", None));
    r.push(preset("客户", "contact", "联系人", "text", None));
    r.push(preset("客户", "phone", "联系电话", "text", None));
    r.push(preset("客户", "level", "客户等级", "select", Some("[\"A\",\"B\",\"C\"]")));
    r.push(preset("合同", "amount", "合同金额", "number", None));
    r.push(preset("合同", "effective_date", "生效日期", "date", None));
    r.push(preset("合同", "expire_date", "到期日期", "date", None));
    r.push(preset("项目", "period", "项目周期", "text", None));
    r.push(preset("项目", "budget", "预算", "number", None));
    r.push(preset("供应商", "category", "供应品类", "text", None));
    r.push(preset("供应商", "settlement", "结算方式", "select", Some("[\"月结\",\"现结\",\"预收\"]")));
    r.push(preset("资质", "valid_until", "有效期至", "date", None));
    r.push(preset("资质", "issuer", "发证机构", "text", None));
    proof {
        assert(r@.map_values(|p: PresetField| preset_view(p)) =~= presets());
    }
    r
}

/// Whether seeding stores the presets, given how many preset definitions
/// exist: only while there is none.
pub open spec fn seeds_presets(existing_presets: int) -> bool {
    existing_presets <= 0
}

/// Presets are seeded once: only while no preset definition exists.
pub fn should_seed_presets(existing_presets: i64) -> (r: bool)
    ensures
        r == seeds_presets(existing_presets as int),
{
    existing_presets <= 0
}

/// Seeding is idempotent: once the presets have been stored, there are at
/// least as many preset definitions as presets, and seeding again stores
/// nothing.
pub proof fn lemma_seeding_idempotent(existing_presets: int)
    requires
        existing_presets >= presets().len(),
    ensures
        !seeds_presets(existing_presets),
{
    assert(presets().len() == 13);
}

#[verifier::external_type_specification]
#[verifier::external_body]
pub struct ExJsonValue(serde_json::Value);

/// The compact JSON text `serde_json::to_string` writes for a value.
pub uninterp spec fn json_written(v: serde_json::Value) -> Seq<char>;

/// Whether a value is a JSON object.
pub uninterp spec fn json_is_object(v: serde_json::Value) -> bool;

/// What `serde_json::from_str::<Value>` makes of a text: whether the value is
/// an object and the text written back for it, or the error's message.
pub uninterp spec fn json_parsed(text: Seq<char>) -> Result<(bool, Seq<char>), Seq<char>>;

/// The text written for the JSON object written as `object` once `key` is set
/// to the string `value` (inserted, or replacing the value it had).
pub uninterp spec fn json_with_key(object: Seq<char>, key: Seq<char>, value: Seq<char>) -> Seq<char>;

/// `serde_json::from_str::<Value>`, the error turned into its `Display` text.
/// Claims that the outcome is `json_parsed` of the text.
#[verifier::external_body]
fn json_parse(text: &str) -> (r: Result<serde_json::Value, String>)
    ensures
        match r {
            Ok(v) => json_parsed(text@) == Ok::<(bool, Seq<char>), Seq<char>>((json_is_object(v), json_written(v))),
            Err(m) => json_parsed(text@) == Err::<(bool, Seq<char>), Seq<char>>(m@),
        },
{
    match serde_json::from_str::<serde_json::Value>(text) {
        Ok(v) => Ok(v),
        Err(e) => Err(e.to_string()),
    }
}

/// Whether a value is the `Value::Object` variant.
#[verifier::external_body]
fn value_is_object(v: &serde_json::Value) -> (r: bool)
    ensures
        r == json_is_object(*v),
{
    matches!(v, serde_json::Value::Object(_))
}

/// `Map::insert` of the key with a `Value::String` into an object value.
/// Claims that the value stays an object, written as `json_with_key` of what
/// it was written as.
#[verifier::external_body]
fn json_insert(v: &mut serde_json::Value, key: &str, value: &str)
    requires
        json_is_object(*old(v)),
    ensures
        json_is_object(*final(v)),
        json_written(*final(v)) == json_with_key(json_written(*old(v)), key@, value@),
{
    match v {
        serde_json::Value::Object(map) => {
            map.insert(key.to_string(), serde_json::Value::String(value.to_string()));
        },
        _ => {},
    }
}

/// `serde_json::to_string` of a value. It does not fail on a `Value`: its
/// `Serialize` impl only writes nulls, booleans, numbers (non-finite floats
/// as `null`), strings, sequences and maps with string keys, into a `Vec<u8>`
/// that never refuses a write; the text is `json_written` of the value.
#[verifier::external_body]
fn json_write(v: &serde_json::Value) -> (r: Result<String, String>)
    ensures
        r is Ok,
        r matches Ok(s) ==> s@ == json_written(*v),
{
    match serde_json::to_string(v) {
        Ok(s) => Ok(s),
        Err(e) => Err(e.to_string()),
    }
}

/// A JSON text with one key set to a string value: the text parsed, the key
/// inserted (or replaced) when the value is an object, any other value left
/// as it was; written back. A parse error gives its message.
pub open spec fn json_field_set(text: Seq<char>, key: Seq<char>, value: Seq<char>) -> Result<Seq<char>, Seq<char>> {
    match json_parsed(text) {
        Err(e) => Err(e),
        Ok((is_object, written)) => Ok(if is_object {
            json_with_key(written, key, value)
        } else {
            written
        }),
    }
}

fn set_json_field(text: &str, key: &str, value: &str) -> (r: Result<String, String>)
    ensures
        match r {
            Ok(s) => json_field_set(text@, key@, value@) == Ok::<Seq<char>, Seq<char>>(s@),
            Err(e) => json_field_set(text@, key@, value@) == Err::<Seq<char>, Seq<char>>(e@),
        },
{
    let mut v = match json_parse(text) {
        Ok(v) => v,
        Err(e) => return Err(e),
    };
    if value_is_object(&v) {
        json_insert(&mut v, key, value);
    }
    json_write(&v)
}

/// The field snapshot with one value merged in: blank or absent snapshots
/// start from an empty object.
pub open spec fn merged_fields(fields: Option<Seq<char>>, key: Seq<char>, value: Seq<char>) -> Result<Seq<char>, Seq<char>> {
    let base = match fields {
        Some(f) => if is_blank(f) {
            "{}"@
        } else {
            f
        },
        None => "{}"@,
    };
    match json_field_set(base, key, value) {
        Ok(s) => Ok(s),
        Err(e) => Err("fields JSON 解析失败: "@ + e),
    }
}

/// Merges one field value into a document's JSON field snapshot.
pub fn merge_field_value(fields: &Option<String>, key: &str, value: &str) -> (r: Result<String, String>)
    ensures
        match r {
            Ok(s) => merged_fields(opt_chars(*fields), key@, value@) == Ok::<Seq<char>, Seq<char>>(s@),
            Err(e) => merged_fields(opt_chars(*fields), key@, value@) == Err::<Seq<char>, Seq<char>>(e@),
        },
{
    let blank = match fields {
        Some(f) => {
            let cs = chars_of(f.as_str());
            is_blank_exec(cs.as_slice())
        },
        None => true,
    };
    let outcome = if blank {
        set_json_field("{}", key, value)
    } else {
        set_json_field(fields.as_ref().unwrap().as_str(), key, value)
    };
    match outcome {
        Ok(s) => Ok(s),
        Err(e) => {
            let mut m = chars_of("fields JSON 解析失败: ");
            push_text(&mut m, e.as_str());
            Err(string_of(m.as_slice()))
        },
    }
}

} // verus!
