//! File-type detection, resource limits, and text extraction from plain text,
//! CSV, Markdown, PDF, docx and xlsx.

use vstd::prelude::*;
use std::io::Cursor;
use std::io::Read;
use zip::result::ZipError;
use zip::ZipArchive;

use crate::text::{
    before_first, before_first_exec, name_prefix, name_prefix_end, find_chars, find_from, has_word, has_word_exec, join_chars, join_with, lemma_find_from,
    split_by, split_pieces, views, trim_end, skip_ws_backward, extend_chars,
    ascii_lower, ascii_lower_chars, chars_eq, chars_of, copy_range, ends_with_char, is_ws,
    is_whitespace, lower_char, string_of, push_str, is_blank, is_blank_exec, occurs_at, occurs_at_exec, replace_all, replace_chars, starts_with, to_lower_char, trim,
    trim_bounds, decimal, push_decimal, push_text, string_views, trim_start,
};

verus! {

/// Largest accepted file, in bytes (50 MiB).
pub const MAX_FILE_BYTES: usize = 52428800;

/// Largest accepted PDF, in pages.
pub const MAX_PAGES: usize = 500;

/// Largest extracted text, in characters.
pub const MAX_CHARS: usize = 2000000;

/// Parse time limit, in seconds (enforced by the caller that runs the parse).
pub const MAX_PARSE_SECS: u64 = 30;

/// Largest number of entries in a zip container (docx / xlsx).
pub const MAX_ZIP_ENTRIES: usize = 5000;

/// Bytes read at most from one zip entry; reaching it means the entry is too large.
pub const MAX_ZIP_ENTRY_BYTES: u64 = 2000001;

/// Why a file could not be turned into text.
#[derive(Debug)]
pub enum ParseError {
    Unsupported(String),
    TooLarge(usize),
    ZipTooLarge(usize),
    Timeout(u64),
    TooManyPages(usize),
    Pdf(String),
    Zip(String),
    Io(String),
}

/// The message of a parse error.
pub open spec fn parse_error_text(e: ParseError) -> Seq<char> {
    match e {
        ParseError::Unsupported(s) => "不支持的文件类型: "@ + s@,
        ParseError::TooLarge(n) => "文件超过大小上限 "@ + decimal(n as nat) + " 字节"@,
        ParseError::ZipTooLarge(n) => "ZIP 条目解压后超过大小上限 "@ + decimal(n as nat) + " 字节（疑似解压炸弹）"@,
        ParseError::Timeout(n) => "解析超时（>"@ + decimal(n as nat) + "s）"@,
        ParseError::TooManyPages(n) => "PDF 超过页数上限 "@ + decimal(n as nat) + " 页"@,
        ParseError::Pdf(s) => "PDF 解析失败: "@ + s@,
        ParseError::Zip(s) => "ZIP/XML 解析失败: "@ + s@,
        ParseError::Io(s) => "IO 错误: "@ + s@,
    }
}

impl ParseError {
    /// The error's message.
    pub fn message(&self) -> (r: String)
        ensures
            r@ == parse_error_text(*self),
    {
        let mut v: Vec<char> = Vec::new();
        match self {
            ParseError::Unsupported(s) => {
                push_text(&mut v, "不支持的文件类型: ");
                push_text(&mut v, s.as_str());
            },
            ParseError::TooLarge(n) => {
                push_text(&mut v, "文件超过大小上限 ");
                push_decimal(*n as u64, &mut v);
                push_text(&mut v, " 字节");
            },
            ParseError::ZipTooLarge(n) => {
                push_text(&mut v, "ZIP 条目解压后超过大小上限 ");
                push_decimal(*n as u64, &mut v);
                push_text(&mut v, " 字节（疑似解压炸弹）");
            },
            ParseError::Timeout(n) => {
                push_text(&mut v, "解析超时（>");
                push_decimal(*n, &mut v);
                push_text(&mut v, "s）");
            },
            ParseError::TooManyPages(n) => {
                push_text(&mut v, "PDF 超过页数上限 ");
                push_decimal(*n as u64, &mut v);
                push_text(&mut v, " 页");
            },
            ParseError::Pdf(s) => {
                push_text(&mut v, "PDF 解析失败: ");
                push_text(&mut v, s.as_str());
            },
            ParseError::Zip(s) => {
                push_text(&mut v, "ZIP/XML 解析失败: ");
                push_text(&mut v, s.as_str());
            },
            ParseError::Io(s) => {
                push_text(&mut v, "IO 错误: ");
                push_text(&mut v, s.as_str());
            },
        }
        proof {
            assert(v@ =~= parse_error_text(*self));
        }
        string_of(v.as_slice())
    }
}

/// The kind of an input file.
#[derive(Debug, Clone, Copy, PartialEq, Eq, Structural)]
pub enum Kind {
    Txt,
    Markdown,
    Csv,
    Pdf,
    Docx,
    Xlsx,
    Image,
    Business,
}

impl Kind {
    /// Whether the kind needs outside processing (OCR).
    pub fn needs_external(&self) -> (r: bool)
        ensures
            r == (*self == Kind::Image),
    {
        match self {
            Kind::Image => true,
            _ => false,
        }
    }
}

/// The kind named by a lower-cased file extension.
pub open spec fn ext_kind(e: Seq<char>) -> Option<Kind> {
    if e == "txt"@ {
        Some(Kind::Txt)
    } else if e == "md"@ || e == "markdown"@ {
        Some(Kind::Markdown)
    } else if e == "csv"@ {
        Some(Kind::Csv)
    } else if e == "pdf"@ {
        Some(Kind::Pdf)
    } else if e == "docx"@ {
        Some(Kind::Docx)
    } else if e == "xls"@ || e == "xlsx"@ {
        Some(Kind::Xlsx)
    } else if e == "png"@ || e == "jpg"@ || e == "jpeg"@ || e == "bmp"@ || e == "gif"@ || e
        == "webp"@ || e == "tif"@ || e == "tiff"@ {
        Some(Kind::Image)
    } else {
        None
    }
}

/// The accepted file extensions and the kind each names.
pub open spec fn extension_table() -> Seq<(Seq<char>, Kind)> {
    seq![
        ("txt"@, Kind::Txt),
        ("md"@, Kind::Markdown),
        ("markdown"@, Kind::Markdown),
        ("csv"@, Kind::Csv),
        ("pdf"@, Kind::Pdf),
        ("docx"@, Kind::Docx),
        ("xls"@, Kind::Xlsx),
        ("xlsx"@, Kind::Xlsx),
        ("png"@, Kind::Image),
        ("jpg"@, Kind::Image),
        ("jpeg"@, Kind::Image),
        ("bmp"@, Kind::Image),
        ("gif"@, Kind::Image),
        ("webp"@, Kind::Image),
        ("tif"@, Kind::Image),
        ("tiff"@, Kind::Image),
    ]
}

/// Every extension of the white list is recognised as its kind (in any
/// ASCII case, as `kind_from_ext` lower-cases first), and only those are.
pub proof fn lemma_extension_white_list(e: Seq<char>)
    ensures
        forall|i: int| 0 <= i < extension_table().len() ==> ext_kind(#[trigger] extension_table()[i].0) == Some(
            extension_table()[i].1,
        ),
        ext_kind(e) is Some ==> exists|i: int| 0 <= i < extension_table().len() && #[trigger] extension_table()[i].0 == e,
{
    reveal_strlit("txt");
    reveal_strlit("md");
    reveal_strlit("markdown");
    reveal_strlit("csv");
    reveal_strlit("pdf");
    reveal_strlit("docx");
    reveal_strlit("xls");
    reveal_strlit("xlsx");
    reveal_strlit("png");
    reveal_strlit("jpg");
    reveal_strlit("jpeg");
    reveal_strlit("bmp");
    reveal_strlit("gif");
    reveal_strlit("webp");
    reveal_strlit("tif");
    reveal_strlit("tiff");
    let t = extension_table();
    assert forall|i: int| 0 <= i < t.len() implies ext_kind(#[trigger] t[i].0) == Some(t[i].1) by {
        let x = t[i].0;
        if i == 1 {
            assert(x != "txt"@) by { assert(x.len() == 2); }
        } else if i == 2 {
            assert(x != "txt"@ && x != "md"@) by { assert(x.len() == 8); }
        } else if i == 3 {
            assert(x != "txt"@ && x != "md"@ && x != "markdown"@) by { assert(x[0] == 'c'); }
        } else if i == 4 {
            assert(x != "txt"@ && x != "md"@ && x != "markdown"@ && x != "csv"@) by { assert(x[0] == 'p'); }
        } else if i == 5 {
            assert(x != "txt"@ && x != "md"@ && x != "markdown"@ && x != "csv"@ && x != "pdf"@) by { assert(x.len() == 4); }
        } else if i == 6 || i == 7 {
            assert(x != "txt"@ && x != "md"@ && x != "markdown"@ && x != "csv"@ && x != "pdf"@ && x != "docx"@) by { assert(x[0] == 'x'); }
        } else if i >= 8 {
            assert(x != "txt"@ && x != "md"@ && x != "markdown"@ && x != "csv"@ && x != "pdf"@ && x != "docx"@ && x != "xls"@ && x != "xlsx"@) by {
                assert(x[0] != 't' || x[1] == 'i');
                assert(x[0] != 'x' && x[0] != 'c' && x[0] != 'm' && x[0] != 'd');
                assert(x[0] == 'p' ==> x[1] == 'n');
            }
        }
    }
    if ext_kind(e) is Some {
        if e == "txt"@ { assert(t[0].0 == e); }
        else if e == "md"@ { assert(t[1].0 == e); }
        else if e == "markdown"@ { assert(t[2].0 == e); }
        else if e == "csv"@ { assert(t[3].0 == e); }
        else if e == "pdf"@ { assert(t[4].0 == e); }
        else if e == "docx"@ { assert(t[5].0 == e); }
        else if e == "xls"@ { assert(t[6].0 == e); }
        else if e == "xlsx"@ { assert(t[7].0 == e); }
        else if e == "png"@ { assert(t[8].0 == e); }
        else if e == "jpg"@ { assert(t[9].0 == e); }
        else if e == "jpeg"@ { assert(t[10].0 == e); }
        else if e == "bmp"@ { assert(t[11].0 == e); }
        else if e == "gif"@ { assert(t[12].0 == e); }
        else if e == "webp"@ { assert(t[13].0 == e); }
        else if e == "tif"@ { assert(t[14].0 == e); }
        else { assert(t[15].0 == e); }
    }
}

fn is_word(v: &Vec<char>, w: &str) -> (r: bool)
    ensures
        r == (v@ == w@),
{
    let wv = chars_of(w);
    chars_eq(v.as_slice(), wv.as_slice())
}

/// Kind from a file extension (ASCII case-insensitive white list).
pub fn kind_from_ext(ext: &str) -> (r: Option<Kind>)
    ensures
        r == ext_kind(ascii_lower(ext@)),
{
    let e = ascii_lower_chars(ext);
    if is_word(&e, "txt") {
        Some(Kind::Txt)
    } else if is_word(&e, "md") || is_word(&e, "markdown") {
        Some(Kind::Markdown)
    } else if is_word(&e, "csv") {
        Some(Kind::Csv)
    } else if is_word(&e, "pdf") {
        Some(Kind::Pdf)
    } else if is_word(&e, "docx") {
        Some(Kind::Docx)
    } else if is_word(&e, "xls") || is_word(&e, "xlsx") {
        Some(Kind::Xlsx)
    } else if is_word(&e, "png") || is_word(&e, "jpg") || is_word(&e, "jpeg") || is_word(&e, "bmp")
        || is_word(&e, "gif") || is_word(&e, "webp") || is_word(&e, "tif") || is_word(&e, "tiff") {
        Some(Kind::Image)
    } else {
        None
    }
}

pub open spec fn bytes_start(b: Seq<u8>, p: Seq<u8>) -> bool {
    p.len() <= b.len() && b.subrange(0, p.len() as int) == p
}

fn starts_with_bytes(b: &[u8], p: &[u8]) -> (r: bool)
    ensures
        r == bytes_start(b@, p@),
{
    if p.len() > b.len() {
        return false;
    }
    let mut i: usize = 0;
    while i < p.len()
        invariant
            p@.len() <= b@.len(),
            0 <= i <= p@.len(),
            forall|k: int| 0 <= k < i ==> b@[k] == p@[k],
        decreases p@.len() - i,
    {
        if b[i] != p[i] {
            proof {
                assert(b@.subrange(0, p@.len() as int)[i as int] != p@[i as int]);
            }
            return false;
        }
        i = i + 1;
    }
    proof {
        assert(b@.subrange(0, p@.len() as int) =~= p@);
    }
    true
}

/// The kind recognised from leading magic bytes: PDF and PNG/JPEG images.
/// Zip containers (docx / xlsx) and everything else give `None`.
pub open spec fn magic_kind(b: Seq<u8>) -> Option<Kind> {
    if bytes_start(b, seq![0x25u8, 0x50u8, 0x44u8, 0x46u8]) {
        Some(Kind::Pdf)
    } else if bytes_start(b, seq![0x89u8, 0x50u8, 0x4eu8, 0x47u8, 0x0du8, 0x0au8, 0x1au8, 0x0au8])
        || bytes_start(b, seq![0xffu8, 0xd8u8, 0xffu8]) {
        Some(Kind::Image)
    } else {
        None
    }
}

/// Kind from magic bytes (guards against forged extensions).
pub fn kind_from_magic(bytes: &[u8]) -> (r: Option<Kind>)
    ensures
        r == magic_kind(bytes@),
{
    let pdf: [u8; 4] = [0x25, 0x50, 0x44, 0x46];
    let png: [u8; 8] = [0x89, 0x50, 0x4e, 0x47, 0x0d, 0x0a, 0x1a, 0x0a];
    let jpg: [u8; 3] = [0xff, 0xd8, 0xff];
    proof {
        assert(pdf@ =~= seq![0x25u8, 0x50u8, 0x44u8, 0x46u8]);
        assert(png@ =~= seq![0x89u8, 0x50u8, 0x4eu8, 0x47u8, 0x0du8, 0x0au8, 0x1au8, 0x0au8]);
        assert(jpg@ =~= seq![0xffu8, 0xd8u8, 0xffu8]);
    }
    if starts_with_bytes(bytes, pdf.as_slice()) {
        Some(Kind::Pdf)
    } else if starts_with_bytes(bytes, png.as_slice()) || starts_with_bytes(bytes, jpg.as_slice()) {
        Some(Kind::Image)
    } else {
        None
    }
}

/// Size pre-check: files above `MAX_FILE_BYTES` are refused.
pub fn check_size(bytes: &[u8]) -> (r: Result<(), ParseError>)
    ensures
        bytes@.len() > MAX_FILE_BYTES ==> (r matches Err(ParseError::TooLarge(n)) && n == bytes@.len()),
        bytes@.len() <= MAX_FILE_BYTES ==> r is Ok,
{
    if bytes.len() > MAX_FILE_BYTES {
        return Err(ParseError::TooLarge(bytes.len()));
    }
    Ok(())
}


/// The five common XML entities decoded, one after the other, left to right.
pub open spec fn decode_entities(s: Seq<char>) -> Seq<char> {
    replace_all(
        replace_all(
            replace_all(replace_all(replace_all(s, "&amp;"@, "&"@), "&lt;"@, "<"@), "&gt;"@, ">"@),
            "&quot;"@,
            "\""@,
        ),
        "&apos;"@,
        "'"@,
    )
}

fn replace_lit(s: Vec<char>, p: &str, r: &str) -> (out: Vec<char>)
    requires
        p@.len() > 0,
    ensures
        out@ == replace_all(s@, p@, r@),
{
    let pv = chars_of(p);
    let rv = chars_of(r);
    replace_chars(s.as_slice(), pv.as_slice(), rv.as_slice())
}

/// Decodes `&amp; &lt; &gt; &quot; &apos;`.
pub fn decode_xml_entities(s: Vec<char>) -> (out: Vec<char>)
    ensures
        out@ == decode_entities(s@),
{
    proof {
        reveal_strlit("&amp;");
        reveal_strlit("&lt;");
        reveal_strlit("&gt;");
        reveal_strlit("&quot;");
        reveal_strlit("&apos;");
    }
    let a = replace_lit(s, "&amp;", "&");
    let b = replace_lit(a, "&lt;", "<");
    let c = replace_lit(b, "&gt;", ">");
    let d = replace_lit(c, "&quot;", "\"");
    replace_lit(d, "&apos;", "'")
}

/// Index of the first `'>'` at or after `i`, or the length.
pub open spec fn tag_close(s: Seq<char>, i: int) -> int
    decreases s.len() - i,
{
    if i < 0 || i >= s.len() {
        s.len() as int
    } else if s[i] == '>' {
        i
    } else {
        tag_close(s, i + 1)
    }
}

pub proof fn lemma_tag_close(s: Seq<char>, i: int)
    requires
        0 <= i,
    ensures
        i <= tag_close(s, i) || i > s.len(),
        tag_close(s, i) <= s.len(),
    decreases s.len() - i,
{
    if i < s.len() && s[i] != '>' {
        lemma_tag_close(s, i + 1);
    }
}

/// What one tag does to the docx text scan.
pub enum TagEffect {
    Nothing,
    TextOn,
    TextOff,
    Newline,
}

pub open spec fn is_break_name(n: Seq<char>) -> bool {
    n == "w:p"@ || n == "w:tab"@ || n == "w:br"@
}

/// Effect of a tag, given the characters between `'<'` and `'>'`: a closing
/// tag starts with `/`, a processing instruction with `?`, a comment or
/// declaration with `!`.
pub open spec fn tag_effect(content: Seq<char>) -> TagEffect {
    let tr = trim(content);
    if starts_with(tr, "/"@) {
        let name = ascii_lower(name_prefix(tr.skip(1), false));
        if name == "w:t"@ {
            TagEffect::TextOff
        } else if is_break_name(name) {
            TagEffect::Newline
        } else {
            TagEffect::Nothing
        }
    } else if starts_with(tr, "?"@) || starts_with(tr, "!"@) {
        TagEffect::Nothing
    } else {
        let name = ascii_lower(name_prefix(tr, true));
        if name == "w:t"@ {
            TagEffect::TextOn
        } else if is_break_name(name) {
            TagEffect::Newline
        } else {
            TagEffect::Nothing
        }
    }
}

/// A newline appended unless the text already ends with one.
pub open spec fn with_newline(out: Seq<char>) -> Seq<char> {
    if ends_with_char(out, '\n') {
        out
    } else {
        out.push('\n')
    }
}

/// The docx text scan from position `i`: text between `<w:t>` tags is kept,
/// paragraph / tab / break tags become one newline.
pub open spec fn docx_scan(s: Seq<char>, i: int, in_text: bool, out: Seq<char>) -> Seq<char>
    decreases s.len() + 1 - i,
{
    if i < 0 || i >= s.len() {
        out
    } else if s[i] == '<' {
        let j = tag_close(s, i + 1);
        proof {
            lemma_tag_close(s, i + 1);
        }
        match tag_effect(s.subrange(i + 1, j)) {
            TagEffect::TextOn => docx_scan(s, j + 1, true, out),
            TagEffect::TextOff => docx_scan(s, j + 1, false, out),
            TagEffect::Newline => docx_scan(s, j + 1, in_text, with_newline(out)),
            TagEffect::Nothing => docx_scan(s, j + 1, in_text, out),
        }
    } else if in_text {
        docx_scan(s, i + 1, in_text, out.push(s[i]))
    } else {
        docx_scan(s, i + 1, in_text, out)
    }
}

/// Plain text of a docx `word/document.xml`.
pub open spec fn docx_text(xml: Seq<char>) -> Seq<char> {
    decode_entities(docx_scan(xml, 0, false, seq![]))
}

proof fn lemma_tag_close_at(s: Seq<char>, i: int, j: int)
    requires
        0 <= i <= j < s.len(),
        s[j] == '>',
        forall|k: int| i <= k < j ==> s[k] != '>',
    ensures
        tag_close(s, i) == j,
    decreases j - i,
{
    if i < j {
        lemma_tag_close_at(s, i + 1, j);
    }
}

/// A tag `<c>` at position `i` of the document: the scan goes on after it
/// with the effect of `c`.
proof fn lemma_docx_tag_step(s: Seq<char>, i: int, in_text: bool, out: Seq<char>, c: Seq<char>)
    requires
        0 <= i,
        i + c.len() + 2 <= s.len(),
        s.subrange(i, i + c.len() + 2) == seq!['<'] + c + seq!['>'],
        forall|k: int| 0 <= k < c.len() ==> c[k] != '>',
    ensures
        docx_scan(s, i, in_text, out) == match tag_effect(c) {
            TagEffect::TextOn => docx_scan(s, i + c.len() + 2, true, out),
            TagEffect::TextOff => docx_scan(s, i + c.len() + 2, false, out),
            TagEffect::Newline => docx_scan(s, i + c.len() + 2, in_text, with_newline(out)),
            TagEffect::Nothing => docx_scan(s, i + c.len() + 2, in_text, out),
        },
{
    let w = s.subrange(i, i + c.len() + 2);
    assert(s[i] == w[0]);
    let j = i + 1 + c.len();
    assert(s[j] == w[c.len() + 1 as int]);
    assert forall|k: int| i + 1 <= k < j implies s[k] != '>' by {
        assert(s[k] == w[k - i]);
        assert(w[k - i] == c[k - i - 1]);
    }
    lemma_tag_close_at(s, i + 1, j);
    assert(s.subrange(i + 1, j) =~= c) by {
        assert forall|k: int| 0 <= k < c.len() implies s.subrange(i + 1, j)[k] == c[k] by {
            assert(s[i + 1 + k] == w[k + 1]);
        }
    }
}

proof fn lemma_tag_name(c: Seq<char>, name: Seq<char>, slash: bool)
    requires
        c == name + (if slash { "/"@ } else { seq![] }),
        name.len() > 0,
        forall|k: int| 0 <= k < name.len() ==> !is_ws(#[trigger] name[k]) && name[k] != '/' && name[k] != '>',
        !is_ws(c.last()),
    ensures
        trim(c) == c,
        name_prefix(c, true) == name,
    decreases name.len(),
{
    reveal_strlit("/");
    assert(!is_ws(c[0])) by {
        assert(c[0] == name[0]);
    }
    assert(trim_start(c) == c);
    assert(trim_end(c) == c);
    if name.len() == 1 {
        assert(c.drop_first() =~= (if slash { "/"@ } else { seq![] }));
        if slash {
            assert(c.drop_first()[0] == '/');
        }
        assert(name_prefix(c.drop_first(), true) =~= seq![]);
        assert(name_prefix(c, true) =~= seq![c[0]]);
        assert(name =~= seq![c[0]]);
    } else {
        let rest = name.drop_first();
        let cd = c.drop_first();
        assert(cd =~= rest + (if slash { "/"@ } else { seq![] }));
        assert(!is_ws(cd.last())) by {
            assert(cd.last() == c.last());
        }
        assert forall|k: int| 0 <= k < rest.len() implies !is_ws(#[trigger] rest[k]) && rest[k] != '/' && rest[k] != '>' by {
            assert(rest[k] == name[k + 1]);
        }
        lemma_tag_name(cd, rest, slash);
        assert(c[0] == name[0]);
        assert(name_prefix(c, true) =~= seq![c[0]] + name_prefix(cd, true));
        assert(name =~= seq![name[0]] + rest);
    }
}

/// Paragraph, tab and line-break tags (`<w:p>`, `</w:p>`, `<w:tab/>`,
/// `<w:br/>`, `<w:br>`) each start a new line of the document text: the scan
/// goes on after the tag with one newline added (none when the text already
/// ends with one), whatever the document and wherever the tag stands.
pub proof fn lemma_docx_break_tags(s: Seq<char>, i: int, in_text: bool, out: Seq<char>, c: Seq<char>)
    requires
        c == "w:p"@ || c == "/w:p"@ || c == "w:tab/"@ || c == "w:br/"@ || c == "w:br"@,
        0 <= i,
        i + c.len() + 2 <= s.len(),
        s.subrange(i, i + c.len() + 2) == seq!['<'] + c + seq!['>'],
    ensures
        docx_scan(s, i, in_text, out) == docx_scan(s, i + c.len() + 2, in_text, with_newline(out)),
{
    reveal_strlit("w:p");
    reveal_strlit("/w:p");
    reveal_strlit("w:tab/");
    reveal_strlit("w:br/");
    reveal_strlit("w:br");
    reveal_strlit("w:tab");
    reveal_strlit("/");
    reveal_strlit("?");
    reveal_strlit("!");
    reveal_strlit("w:t");
    assert(forall|k: int| 0 <= k < c.len() ==> c[k] != '>');
    lemma_docx_tag_step(s, i, in_text, out, c);
    if c == "/w:p"@ {
        let t = c.skip(1);
        assert(t =~= "w:p"@);
        lemma_tag_name(t, "w:p"@, false);
        assert(!is_ws(c[0]));
        assert(trim_start(c) == c);
        assert(trim_end(c) == c);
        assert(trim(c) == c);
        assert(c.subrange(0, 1) =~= "/"@);
        assert(starts_with(trim(c), "/"@));
        assert(name_prefix(t, false) == name_prefix(t, true)) by {
            lemma_name_prefix_no_slash(t);
        }
        assert(ascii_lower("w:p"@) =~= "w:p"@);
        assert(trim(c).skip(1) == t);
        assert(ascii_lower(name_prefix(trim(c).skip(1), false)) == "w:p"@);
        assert("w:p"@ != "w:t"@) by {
            assert("w:p"@[2] != "w:t"@[2]);
        }
        assert(is_break_name("w:p"@));
        assert(tag_effect(c) == TagEffect::Newline);
    } else {
        let (name, slash) = if c == "w:p"@ {
            ("w:p"@, false)
        } else if c == "w:tab/"@ {
            ("w:tab"@, true)
        } else if c == "w:br/"@ {
            ("w:br"@, true)
        } else {
            ("w:br"@, false)
        };
        assert(c =~= name + (if slash { "/"@ } else { seq![] }));
        lemma_tag_name(c, name, slash);
        assert(c[0] == 'w');
        assert(c.subrange(0, 1)[0] == 'w');
        assert(c.subrange(0, 1) != "/"@);
        assert(c.subrange(0, 1) != "?"@);
        assert(c.subrange(0, 1) != "!"@);
        assert(!starts_with(trim(c), "/"@));
        assert(!starts_with(trim(c), "?"@));
        assert(!starts_with(trim(c), "!"@));
        assert(ascii_lower(name) =~= name);
        assert(ascii_lower(name_prefix(trim(c), true)) == name);
        assert(name != "w:t"@) by {
            if name.len() == 3 {
                assert(name[2] != 't');
            }
        }
        assert(is_break_name(name));
        assert(tag_effect(c) == TagEffect::Newline);
    }
}

proof fn lemma_name_prefix_no_slash(t: Seq<char>)
    requires
        forall|k: int| 0 <= k < t.len() ==> t[k] != '/',
    ensures
        name_prefix(t, false) == name_prefix(t, true),
    decreases t.len(),
{
    if t.len() > 0 {
        lemma_name_prefix_no_slash(t.drop_first());
    }
}

/// Appends a newline unless `out` already ends with one.
pub fn push_newline(out: &mut Vec<char>)
    ensures
        final(out)@ == with_newline(old(out)@),
{
    let n = out.len();
    if n == 0 || out[n - 1] != '\n' {
        out.push('\n');
    }
}

fn lower_range(t: &[char], a: usize, b: usize) -> (v: Vec<char>)
    requires
        a <= b <= t@.len(),
    ensures
        v@ == ascii_lower(t@.subrange(a as int, b as int)),
{
    let mut v: Vec<char> = Vec::new();
    let mut i = a;
    while i < b
        invariant
            a <= i <= b <= t@.len(),
            v@ == ascii_lower(t@.subrange(a as int, i as int)),
        decreases b - i,
    {
        v.push(to_lower_char(t[i]));
        proof {
            assert(ascii_lower(t@.subrange(a as int, i + 1)) =~= ascii_lower(t@.subrange(a as int, i as int)).push(lower_char(t@[i as int])));
        }
        i = i + 1;
    }
    v
}

struct TagNames {
    t: Vec<char>,
    p: Vec<char>,
    tab: Vec<char>,
    br: Vec<char>,
    close: Vec<char>,
    pi: Vec<char>,
    decl: Vec<char>,
}

fn effect_of_name(n: &Vec<char>, names: &TagNames, on: TagEffect, ghost_name: Ghost<Seq<char>>) -> (r: TagEffect)
    requires
        names.t@ == "w:t"@,
        names.p@ == "w:p"@,
        names.tab@ == "w:tab"@,
        names.br@ == "w:br"@,
        n@ == ghost_name@,
    ensures
        r == (if n@ == "w:t"@ {
            on
        } else if is_break_name(n@) {
            TagEffect::Newline
        } else {
            TagEffect::Nothing
        }),
{
    if chars_eq(n.as_slice(), names.t.as_slice()) {
        on
    } else if chars_eq(n.as_slice(), names.p.as_slice()) || chars_eq(n.as_slice(), names.tab.as_slice())
        || chars_eq(n.as_slice(), names.br.as_slice()) {
        TagEffect::Newline
    } else {
        TagEffect::Nothing
    }
}

fn tag_effect_exec(s: &[char], a: usize, b: usize, names: &TagNames) -> (r: TagEffect)
    requires
        a <= b <= s@.len(),
        names.t@ == "w:t"@,
        names.p@ == "w:p"@,
        names.tab@ == "w:tab"@,
        names.br@ == "w:br"@,
        names.close@ == "/"@,
        names.pi@ == "?"@,
        names.decl@ == "!"@,
    ensures
        r == tag_effect(s@.subrange(a as int, b as int)),
{
    let (ta, tb) = trim_bounds(s, a, b);
    let ghost tr = s@.subrange(ta as int, tb as int);
    proof {
        reveal_strlit("/");
        reveal_strlit("?");
        reveal_strlit("!");
    }
    let tv = copy_range(s, ta, tb);
    if occurs_at_exec(tv.as_slice(), names.close.as_slice(), 0) {
        let e = name_prefix_end(s, ta + 1, tb, false);
        let n = lower_range(s, ta + 1, e);
        proof {
            assert(tr.skip(1) =~= s@.subrange(ta + 1, tb as int));
        }
        effect_of_name(&n, names, TagEffect::TextOff, Ghost(n@))
    } else if occurs_at_exec(tv.as_slice(), names.pi.as_slice(), 0) || occurs_at_exec(
        tv.as_slice(),
        names.decl.as_slice(),
        0,
    ) {
        TagEffect::Nothing
    } else {
        let e = name_prefix_end(s, ta, tb, true);
        let n = lower_range(s, ta, e);
        effect_of_name(&n, names, TagEffect::TextOn, Ghost(n@))
    }
}

fn tag_close_exec(s: &[char], i: usize) -> (j: usize)
    requires
        i <= s@.len(),
    ensures
        j as int == tag_close(s@, i as int),
        i <= j <= s@.len(),
{
    let mut j = i;
    while j < s.len() && s[j] != '>'
        invariant
            i <= j <= s@.len(),
            tag_close(s@, i as int) == tag_close(s@, j as int),
        decreases s@.len() - j,
    {
        j = j + 1;
    }
    j
}

/// Plain text of a docx `word/document.xml`: `<w:t>` text kept, `<w:p>` /
/// `<w:tab>` / `<w:br>` as newlines, other tags dropped, entities decoded.
pub fn docx_xml_to_text(xml: &Vec<char>) -> (r: Vec<char>)
    ensures
        r@ == docx_text(xml@),
{
    let names = TagNames {
        t: chars_of("w:t"),
        p: chars_of("w:p"),
        tab: chars_of("w:tab"),
        br: chars_of("w:br"),
        close: chars_of("/"),
        pi: chars_of("?"),
        decl: chars_of("!"),
    };
    let s = xml.as_slice();
    let n = s.len();
    let mut out: Vec<char> = Vec::new();
    let mut in_text = false;
    let mut i: usize = 0;
    while i < n
        invariant
            n == s@.len(),
            s@ == xml@,
            names.t@ == "w:t"@,
            names.p@ == "w:p"@,
            names.tab@ == "w:tab"@,
            names.br@ == "w:br"@,
            names.close@ == "/"@,
            names.pi@ == "?"@,
            names.decl@ == "!"@,
            docx_scan(s@, i as int, in_text, out@) == docx_scan(s@, 0, false, seq![]),
        ensures
            docx_scan(s@, 0, false, seq![]) == out@,
        decreases n - i,
    {
        if s[i] == '<' {
            let j = tag_close_exec(s, i + 1);
            let eff = tag_effect_exec(s, i + 1, j, &names);
            match eff {
                TagEffect::TextOn => {
                    in_text = true;
                },
                TagEffect::TextOff => {
                    in_text = false;
                },
                TagEffect::Newline => {
                    push_newline(&mut out);
                },
                TagEffect::Nothing => {},
            }
            if j >= n {
                proof {
                    assert(docx_scan(s@, j + 1, in_text, out@) == out@);
                }
                break;
            }
            i = j + 1;
        } else {
            if in_text {
                out.push(s[i]);
            }
            i = i + 1;
        }
    }
    decode_xml_entities(out)
}


/// Value of a string of decimal digits.
pub open spec fn digits_value(d: Seq<char>) -> nat
    decreases d.len(),
{
    if d.len() == 0 {
        0
    } else {
        digits_value(d.drop_last()) * 10 + ((d.last() as nat) - 48) as nat
    }
}

pub open spec fn all_digits(d: Seq<char>) -> bool {
    d.len() > 0 && forall|i: int| 0 <= i < d.len() ==> '0' <= #[trigger] d[i] && d[i] <= '9'
}

/// What `str::parse::<usize>` gives: an optional `'+'`, then one or more digits,
/// with a value that fits.
pub open spec fn parse_usize(s: Seq<char>) -> Option<usize> {
    let d = if s.len() > 0 && s[0] == '+' {
        s.skip(1)
    } else {
        s
    };
    if all_digits(d) && digits_value(d) <= usize::MAX {
        Some(digits_value(d) as usize)
    } else {
        None
    }
}

proof fn lemma_digits_monotone(d: Seq<char>, k: int)
    requires
        all_digits(d),
        1 <= k <= d.len(),
    ensures
        digits_value(d.take(k)) <= digits_value(d),
    decreases d.len() - k,
{
    if k < d.len() {
        lemma_digits_monotone(d, k + 1);
        assert(d.take(k + 1).drop_last() =~= d.take(k));
        assert(d.take(k + 1).last() == d[k]);
        assert('0' <= d[k]);
    } else {
        assert(d.take(k) =~= d);
    }
}

/// Parses a decimal `usize` as `str::parse` does.
pub fn parse_usize_exec(s: &[char]) -> (r: Option<usize>)
    ensures
        r == parse_usize(s@),
{
    let start: usize = if s.len() > 0 && s[0] == '+' {
        1
    } else {
        0
    };
    let ghost d = if s@.len() > 0 && s@[0] == '+' {
        s@.skip(1)
    } else {
        s@
    };
    proof {
        assert(d =~= s@.skip(start as int));
    }
    if start >= s.len() {
        return None;
    }
    let mut v: usize = 0;
    let mut i = start;
    while i < s.len()
        invariant
            start <= i <= s@.len(),
            d == s@.skip(start as int),
            d == (if s@.len() > 0 && s@[0] == '+' {
                s@.skip(1)
            } else {
                s@
            }),
            forall|k: int| start <= k < i ==> '0' <= #[trigger] s@[k] && s@[k] <= '9',
            v as nat == digits_value(s@.subrange(start as int, i as int)),
        decreases s@.len() - i,
    {
        let c = s[i];
        if !('0' <= c && c <= '9') {
            proof {
                assert(!all_digits(d)) by {
                    assert(d[i - start] == c);
                }
                assert(parse_usize(s@) is None);
            }
            return None;
        }
        let dig = (c as u32 - 48) as usize;
        proof {
            assert(s@.subrange(start as int, i + 1).drop_last() =~= s@.subrange(start as int, i as int));
        }
        match v.checked_mul(10) {
            Some(m) => match m.checked_add(dig) {
                Some(nv) => {
                    v = nv;
                },
                None => {
                    proof {
                        let sub = s@.subrange(start as int, i + 1);
                        assert(sub.last() == c);
                        assert(m == v * 10);
                        assert(dig as nat == (c as nat) - 48);
                        assert(sub.drop_last() =~= s@.subrange(start as int, i as int));
                        assert(digits_value(sub) == v * 10 + dig);
                        assert(all_digits(s@.subrange(start as int, i + 1)));
                        if all_digits(d) {
                            lemma_digits_monotone(d, i + 1 - start);
                            assert(d.take(i + 1 - start) =~= s@.subrange(start as int, i + 1));
                        }
                    }
                    return None;
                },
            },
            None => {
                proof {
                    if all_digits(d) {
                        lemma_digits_monotone(d, i + 1 - start);
                        assert(d.take(i + 1 - start) =~= s@.subrange(start as int, i + 1));
                    }
                }
                return None;
            },
        }
        i = i + 1;
    }
    proof {
        assert(s@.subrange(start as int, s@.len() as int) =~= d);
    }
    Some(v)
}

/// Text of the first `<name …>…</name>` element (entities decoded), or empty.
pub open spec fn tag_text(x: Seq<char>, name: Seq<char>) -> Seq<char> {
    let open = "<"@ + name;
    match find_from(x, open, 0) {
        None => seq![],
        Some(pos) => {
            let after = x.skip(pos + open.len());
            match find_from(after, ">"@, 0) {
                None => seq![],
                Some(gt) => {
                    let inner = after.skip(gt + 1);
                    match find_from(inner, "</"@ + name + ">"@, 0) {
                        None => seq![],
                        Some(end) => decode_entities(inner.take(end)),
                    }
                },
            }
        },
    }
}

/// Text of the first `<name …>…</name>` element in `x` (no nesting handled).
pub fn extract_tag_text(x: &[char], name: &str) -> (r: Vec<char>)
    ensures
        r@ == tag_text(x@, name@),
{
    proof {
        reveal_strlit(">");
    }
    let mut open = chars_of("<");
    let nm = chars_of(name);
    extend_chars(&mut open, nm.as_slice());
    let gt = chars_of(">");
    let mut close = chars_of("</");
    extend_chars(&mut close, nm.as_slice());
    extend_chars(&mut close, gt.as_slice());
    proof {
        lemma_find_from(x@, open@, 0);
    }
    match find_chars(x, open.as_slice(), 0) {
        None => Vec::new(),
        Some(pos) => {
            assert(occurs_at(x@, open@, pos as int));
            let xn = x.len();
            assert(pos + open@.len() <= xn);
            let after = copy_range(x, pos + open.len(), x.len());
            proof {
                lemma_find_from(after@, gt@, 0);
            }
            match find_chars(after.as_slice(), gt.as_slice(), 0) {
                None => Vec::new(),
                Some(g) => {
                    assert(occurs_at(after@, gt@, g as int));
                    let inner = copy_range(after.as_slice(), g + 1, after.len());
                    proof {
                        lemma_find_from(inner@, close@, 0);
                        assert(inner@ =~= after@.skip(g + 1));
                    }
                    match find_chars(inner.as_slice(), close.as_slice(), 0) {
                        None => Vec::new(),
                        Some(e) => {
                            let body = copy_range(inner.as_slice(), 0, e);
                            decode_xml_entities(body)
                        },
                    }
                },
            }
        },
    }
}


/// Text of one `<t …>` fragment of a shared-string item: what follows the
/// end of its opening tag (the first `'>'`), up to `"</t>"`.
pub open spec fn t_piece(part: Seq<char>) -> Seq<char> {
    match find_from(part, ">"@, 0) {
        Some(k) => before_first(part.skip(k + 1), "</t>"@),
        None => seq![],
    }
}

/// Concatenated fragment texts.
pub open spec fn concat_t_pieces(parts: Seq<Seq<char>>) -> Seq<char>
    decreases parts.len(),
{
    if parts.len() == 0 {
        seq![]
    } else {
        concat_t_pieces(parts.drop_last()) + t_piece(parts.last())
    }
}

/// Text of one shared-string item.
pub open spec fn shared_item(si: Seq<char>) -> Seq<char> {
    decode_entities(concat_t_pieces(split_by(before_first(si, "</si>"@), "<t"@).skip(1)))
}

/// Total length of the first `k` texts.
pub open spec fn total_len(items: Seq<Seq<char>>, k: int) -> nat
    decreases k,
{
    if k <= 0 {
        0
    } else {
        total_len(items, k - 1) + items[k - 1].len()
    }
}

/// The shared-string items, or the running total that first exceeded `MAX_CHARS`.
pub open spec fn limited(items: Seq<Seq<char>>, k: int) -> Result<Seq<Seq<char>>, nat>
    decreases items.len() - k,
{
    if k >= items.len() {
        Ok(items)
    } else if total_len(items, k + 1) > MAX_CHARS {
        Err(total_len(items, k + 1))
    } else {
        limited(items, k + 1)
    }
}

/// A count as a `usize`, capped at `usize::MAX`.
pub open spec fn saturate(n: nat) -> usize {
    if n > usize::MAX {
        usize::MAX
    } else {
        n as usize
    }
}

/// Items of `xl/sharedStrings.xml`, one per `<si>`.
pub open spec fn shared_items(xml: Seq<char>) -> Seq<Seq<char>> {
    split_by(xml, "<si>"@).skip(1).map_values(|si: Seq<char>| shared_item(si))
}

fn t_piece_exec(part: &[char], gt: &Vec<char>, tclose: &Vec<char>) -> (r: Vec<char>)
    requires
        gt@ == ">"@,
        tclose@ == "</t>"@,
        gt@.len() == 1,
    ensures
        r@ == t_piece(part@),
{
    proof {
        lemma_find_from(part@, gt@, 0);
    }
    match find_chars(part, gt.as_slice(), 0) {
        Some(k) => {
            let n = part.len();
            assert(occurs_at(part@, gt@, k as int));
            assert(k + 1 <= n);
            let rest = copy_range(part, k + 1, n);
            proof {
                assert(rest@ =~= part@.skip(k + 1));
            }
            before_first_exec(rest.as_slice(), tclose.as_slice())
        },
        None => Vec::new(),
    }
}

fn shared_item_exec(si: &[char], lits: &XlsxLits) -> (r: Vec<char>)
    requires
        lits.wf(),
    ensures
        r@ == shared_item(si@),
{
    let body = before_first_exec(si, lits.si_close.as_slice());
    let parts = split_pieces(body.as_slice(), lits.t_open.as_slice());
    let mut text: Vec<char> = Vec::new();
    let mut k: usize = 1;
    proof {
        assert(views(parts@).skip(1).take(0) =~= seq![]);
    }
    while k < parts.len()
        invariant
            1 <= k <= parts@.len(),
            lits.wf(),
            views(parts@) == split_by(body@, "<t"@),
            text@ == concat_t_pieces(views(parts@).skip(1).take(k - 1)),
        decreases parts@.len() - k,
    {
        let piece = t_piece_exec(parts[k].as_slice(), &lits.gt, &lits.t_close);
        extend_chars(&mut text, piece.as_slice());
        proof {
            let vs = views(parts@).skip(1);
            assert(vs.take(k as int).drop_last() =~= vs.take(k - 1));
            assert(vs.take(k as int).last() == parts@[k as int]@);
        }
        k = k + 1;
    }
    proof {
        assert(views(parts@).skip(1).take(parts@.len() - 1) =~= views(parts@).skip(1));
    }
    decode_xml_entities(text)
}

/// Literal patterns of the xlsx scanners.
struct XlsxLits {
    gt: Vec<char>,
    t_close: Vec<char>,
    si_open: Vec<char>,
    si_close: Vec<char>,
    t_open: Vec<char>,
    row_open: Vec<char>,
    row_close: Vec<char>,
    c_open: Vec<char>,
    shared_attr: Vec<char>,
    inline_attr: Vec<char>,
    tab: Vec<char>,
    nl: Vec<char>,
}

impl XlsxLits {
    spec fn wf(&self) -> bool {
        &&& self.gt@ == ">"@
        &&& self.gt@.len() == 1
        &&& self.t_close@ == "</t>"@
        &&& self.si_open@ == "<si>"@
        &&& self.si_open@.len() > 0
        &&& self.si_close@ == "</si>"@
        &&& self.t_open@ == "<t"@
        &&& self.t_open@.len() > 0
        &&& self.row_open@ == "<row"@
        &&& self.row_open@.len() > 0
        &&& self.row_close@ == "</row>"@
        &&& self.c_open@ == "<c"@
        &&& self.c_open@.len() > 0
        &&& self.shared_attr@ == "t=\"s\""@
        &&& self.inline_attr@ == "t=\"inlineStr\""@
        &&& self.tab@ == "\t"@
        &&& self.nl@ == "\n"@
    }

    fn new() -> (r: Self)
        ensures
            r.wf(),
    {
        proof {
            reveal_strlit(">");
            reveal_strlit("<si>");
            reveal_strlit("<t");
            reveal_strlit("<row");
            reveal_strlit("<c");
        }
        XlsxLits {
            gt: chars_of(">"),
            t_close: chars_of("</t>"),
            si_open: chars_of("<si>"),
            si_close: chars_of("</si>"),
            t_open: chars_of("<t"),
            row_open: chars_of("<row"),
            row_close: chars_of("</row>"),
            c_open: chars_of("<c"),
            shared_attr: chars_of("t=\"s\""),
            inline_attr: chars_of("t=\"inlineStr\""),
            tab: chars_of("\t"),
            nl: chars_of("\n"),
        }
    }
}

/// Shared strings of an xlsx workbook; refuses (`ZipTooLarge` with the running
/// total) once their total length exceeds `MAX_CHARS`.
pub fn xlsx_shared_strings(xml: &Vec<char>) -> (r: Result<Vec<Vec<char>>, ParseError>)
    ensures
        match limited(shared_items(xml@), 0) {
            Ok(items) => r matches Ok(v) && views(v@) == items,
            Err(total) => r matches Err(ParseError::ZipTooLarge(n)) && n == saturate(total),
        },
{
    let lits = XlsxLits::new();
    let pieces = split_pieces(xml.as_slice(), lits.si_open.as_slice());
    let ghost items = shared_items(xml@);
    let ghost sis = split_by(xml@, "<si>"@).skip(1);
    let mut out: Vec<Vec<char>> = Vec::new();
    let mut total: usize = 0;
    let mut k: usize = 1;
    proof {
        assert(items.len() == pieces@.len() - 1);
        assert(views(out@) =~= items.take(0));
        assert(limited(items, 0) == limited(items, 0));
    }
    while k < pieces.len()
        invariant
            1 <= k <= pieces@.len(),
            lits.wf(),
            views(pieces@) == split_by(xml@, "<si>"@),
            sis == split_by(xml@, "<si>"@).skip(1),
            items == sis.map_values(|si: Seq<char>| shared_item(si)),
            items.len() == pieces@.len() - 1,
            views(out@) == items.take(k - 1),
            total as nat == total_len(items, k - 1),
            total <= MAX_CHARS,
            limited(items, 0) == limited(items, k - 1),
        decreases pieces@.len() - k,
    {
        let item = shared_item_exec(pieces[k].as_slice(), &lits);
        proof {
            assert(sis[k - 1] == pieces@[k as int]@);
            assert(item@ == items[k - 1]);
        }
        let len = item.len();
        if len > MAX_CHARS - total {
            let over = if len > usize::MAX - total {
                usize::MAX
            } else {
                total + len
            };
            return Err(ParseError::ZipTooLarge(over));
        }
        total = total + len;
        let ghost before = out@;
        out.push(item);
        proof {
            assert(out@ == before.push(item));
            assert(views(out@) =~= views(before).push(item@));
            assert(items.take(k as int) =~= items.take(k - 1).push(items[k - 1]));
        }
        k = k + 1;
    }
    proof {
        assert(items.take(items.len() as int) =~= items);
    }
    Ok(out)
}


/// Attribute text and content of a cell fragment (split at its first `'>'`).
pub open spec fn cell_parts(cell: Seq<char>) -> (Seq<char>, Seq<char>) {
    match find_from(cell, ">"@, 0) {
        Some(k) => (cell.take(k), cell.skip(k + 1)),
        None => (cell, seq![]),
    }
}

/// Value of one `<c …>` cell: a shared string by index (`t="s"`, index 0 when
/// unparsable, empty when out of range), an inline string (`t="inlineStr"`), or
/// the raw `<v>` text.
pub open spec fn cell_value(cell: Seq<char>, shared: Seq<Seq<char>>) -> Seq<char> {
    let attrs = cell_parts(cell).0;
    let rest = cell_parts(cell).1;
    if has_word(attrs, "t=\"s\""@) {
        let idx: int = match parse_usize(trim(tag_text(rest, "v"@))) {
            Some(n) => n as int,
            None => 0,
        };
        if idx < shared.len() {
            shared[idx]
        } else {
            seq![]
        }
    } else if has_word(attrs, "t=\"inlineStr\""@) {
        tag_text(rest, "t"@)
    } else {
        tag_text(rest, "v"@)
    }
}

/// Trailing empty cells removed.
pub open spec fn drop_trailing_empty(cells: Seq<Seq<char>>) -> Seq<Seq<char>>
    decreases cells.len(),
{
    if cells.len() > 0 && cells.last().len() == 0 {
        drop_trailing_empty(cells.drop_last())
    } else {
        cells
    }
}

/// Cell values of a row body.
pub open spec fn row_cells(body: Seq<char>, shared: Seq<Seq<char>>) -> Seq<Seq<char>> {
    split_by(body, "<c"@).skip(1).map_values(|c: Seq<char>| cell_value(c, shared))
}

/// The text line of one `<row` fragment: its cells joined by tabs, or nothing
/// when the row has no `'>'` or no non-empty trailing cell.
pub open spec fn row_line(row: Seq<char>, shared: Seq<Seq<char>>) -> Option<Seq<char>> {
    match find_from(row, ">"@, 0) {
        None => None,
        Some(k) => {
            let body = before_first(row.skip(k + 1), "</row>"@);
            let cells = drop_trailing_empty(row_cells(body, shared));
            if cells.len() == 0 {
                None
            } else {
                Some(join_with(cells, "\t"@))
            }
        },
    }
}

/// Lines of all rows that give one.
pub open spec fn sheet_lines(rows: Seq<Seq<char>>, shared: Seq<Seq<char>>) -> Seq<Seq<char>>
    decreases rows.len(),
{
    if rows.len() == 0 {
        seq![]
    } else {
        let prev = sheet_lines(rows.drop_last(), shared);
        match row_line(rows.last(), shared) {
            Some(l) => prev.push(l),
            None => prev,
        }
    }
}

/// Text of one worksheet: rows as lines, cells separated by tabs.
pub open spec fn sheet_text(xml: Seq<char>, shared: Seq<Seq<char>>) -> Seq<char> {
    join_with(sheet_lines(split_by(xml, "<row"@).skip(1), shared), "\n"@)
}

fn cell_value_exec(cell: &[char], shared: &Vec<Vec<char>>, lits: &XlsxLits) -> (r: Vec<char>)
    requires
        lits.wf(),
    ensures
        r@ == cell_value(cell@, views(shared@)),
{
    proof {
        lemma_find_from(cell@, ">"@, 0);
    }
    let (attrs, rest) = match find_chars(cell, lits.gt.as_slice(), 0) {
        Some(k) => {
            assert(occurs_at(cell@, lits.gt@, k as int));
            let n = cell.len();
            assert(k + 1 <= n);
            (copy_range(cell, 0, k), copy_range(cell, k + 1, cell.len()))
        },
        None => (copy_range(cell, 0, cell.len()), Vec::new()),
    };
    proof {
        assert(attrs@ =~= cell_parts(cell@).0);
        assert(rest@ =~= cell_parts(cell@).1);
    }
    if has_word_exec(attrs.as_slice(), lits.shared_attr.as_slice()) {
        let v = extract_tag_text(rest.as_slice(), "v");
        let (a, b) = trim_bounds(v.as_slice(), 0, v.len());
        let tv = copy_range(v.as_slice(), a, b);
        proof {
            assert(v@.subrange(0, v@.len() as int) =~= v@);
        }
        let idx: usize = match parse_usize_exec(tv.as_slice()) {
            Some(n) => n,
            None => 0,
        };
        if idx < shared.len() {
            copy_range(shared[idx].as_slice(), 0, shared[idx].len())
        } else {
            Vec::new()
        }
    } else if has_word_exec(attrs.as_slice(), lits.inline_attr.as_slice()) {
        extract_tag_text(rest.as_slice(), "t")
    } else {
        extract_tag_text(rest.as_slice(), "v")
    }
}

fn row_line_exec(row: &[char], shared: &Vec<Vec<char>>, lits: &XlsxLits) -> (r: Option<Vec<char>>)
    requires
        lits.wf(),
    ensures
        match row_line(row@, views(shared@)) {
            Some(l) => r matches Some(v) && v@ == l,
            None => r is None,
        },
{
    proof {
        lemma_find_from(row@, ">"@, 0);
    }
    let k = match find_chars(row, lits.gt.as_slice(), 0) {
        Some(k) => k,
        None => {
            return None;
        },
    };
    assert(occurs_at(row@, lits.gt@, k as int));
    let n = row.len();
    assert(k + 1 <= n);
    let after = copy_range(row, k + 1, row.len());
    let body = before_first_exec(after.as_slice(), lits.row_close.as_slice());
    let parts = split_pieces(body.as_slice(), lits.c_open.as_slice());
    let ghost sh = views(shared@);
    let ghost want = row_cells(body@, sh);
    let mut cells: Vec<Vec<char>> = Vec::new();
    let mut j: usize = 1;
    proof {
        assert(views(cells@) =~= want.take(0));
    }
    while j < parts.len()
        invariant
            1 <= j <= parts@.len(),
            lits.wf(),
            sh == views(shared@),
            views(parts@) == split_by(body@, "<c"@),
            want == row_cells(body@, sh),
            want.len() == parts@.len() - 1,
            views(cells@) == want.take(j - 1),
        decreases parts@.len() - j,
    {
        let v = cell_value_exec(parts[j].as_slice(), shared, lits);
        let ghost before = cells@;
        cells.push(v);
        proof {
            assert(views(parts@).skip(1)[j - 1] == parts@[j as int]@);
            assert(views(cells@) =~= views(before).push(v@));
            assert(want.take(j as int) =~= want.take(j - 1).push(want[j - 1]));
        }
        j = j + 1;
    }
    proof {
        assert(want.take(want.len() as int) =~= want);
    }
    while cells.len() > 0 && cells[cells.len() - 1].len() == 0
        invariant
            drop_trailing_empty(views(cells@)) == drop_trailing_empty(want),
        decreases cells@.len(),
    {
        let ghost before = cells@;
        cells.pop();
        proof {
            assert(views(before).drop_last() =~= views(cells@));
        }
    }
    proof {
        assert(drop_trailing_empty(views(cells@)) == views(cells@));
    }
    if cells.len() == 0 {
        None
    } else {
        let line = join_chars(&cells, lits.tab.as_slice());
        proof {
            assert(row@.skip(k + 1) =~= after@);
        }
        Some(line)
    }
}

/// Text of one worksheet (`xl/worksheets/sheet*.xml`).
pub fn xlsx_sheet_to_text(xml: &Vec<char>, shared: &Vec<Vec<char>>) -> (r: Vec<char>)
    ensures
        r@ == sheet_text(xml@, views(shared@)),
{
    let lits = XlsxLits::new();
    let rows = split_pieces(xml.as_slice(), lits.row_open.as_slice());
    let ghost sh = views(shared@);
    let ghost rs = views(rows@).skip(1);
    let mut lines: Vec<Vec<char>> = Vec::new();
    let mut i: usize = 1;
    proof {
        assert(rs.take(0) =~= seq![]);
    }
    while i < rows.len()
        invariant
            1 <= i <= rows@.len(),
            lits.wf(),
            sh == views(shared@),
            rs == views(rows@).skip(1),
            views(rows@) == split_by(xml@, "<row"@),
            views(lines@) == sheet_lines(rs.take(i - 1), sh),
        decreases rows@.len() - i,
    {
        let line = row_line_exec(rows[i].as_slice(), shared, &lits);
        proof {
            assert(rs.take(i as int).drop_last() =~= rs.take(i - 1));
            assert(rs.take(i as int).last() == rows@[i as int]@);
        }
        match line {
            Some(l) => {
                let ghost before = lines@;
                lines.push(l);
                proof {
                    assert(views(lines@) =~= views(before).push(l@));
                }
            },
            None => {},
        }
        i = i + 1;
    }
    proof {
        assert(rs.take(rows@.len() - 1) =~= rs);
        assert(views(lines@) == lines@.map_values(|v: Vec<char>| v@));
    }
    join_chars(&lines, lits.nl.as_slice())
}


/// What lossy UTF-8 decoding (`String::from_utf8_lossy`) makes of some bytes.
pub uninterp spec fn utf8_lossy(b: Seq<u8>) -> Seq<char>;

/// Lossy UTF-8 text of some bytes.
///
/// Calls `String::from_utf8_lossy`. The contract names the result and, as the
/// documentation says, states that valid UTF-8 decodes to its characters.
#[verifier::external_body]
pub(crate) fn lossy_text(b: &[u8]) -> (s: String)
    ensures
        s@ == utf8_lossy(b@),
        vstd::utf8::valid_utf8(b@) ==> s@ == vstd::utf8::decode_utf8(b@),
{
    String::from_utf8_lossy(b).into_owned()
}

/// Lines of a text as `str::lines` yields them, before the trailing carriage
/// return of each line is dropped (the trailing whitespace trim that follows
/// removes it anyway).
pub open spec fn raw_lines(s: Seq<char>) -> Seq<Seq<char>> {
    let p = split_by(s, "\n"@);
    if p.len() > 0 && p.last().len() == 0 {
        p.drop_last()
    } else {
        p
    }
}

/// One CSV line made searchable: trailing whitespace dropped, commas as tabs.
pub open spec fn csv_line(l: Seq<char>) -> Seq<char> {
    replace_all(trim_end(l), ","@, "\t"@)
}

/// CSV text with cells separated by tabs, one line per row.
pub open spec fn csv_text(s: Seq<char>) -> Seq<char> {
    join_with(raw_lines(s).map_values(|l: Seq<char>| csv_line(l)), "\n"@)
}

/// CSV bytes to readable text (lossy UTF-8; commas become tabs).
pub fn parse_csv(bytes: &[u8]) -> (r: String)
    ensures
        r@ == csv_text(utf8_lossy(bytes@)),
{
    proof {
        reveal_strlit("\n");
        reveal_strlit(",");
    }
    let text = lossy_text(bytes);
    let cs = chars_of(text.as_str());
    let nl = chars_of("\n");
    let comma = chars_of(",");
    let tab = chars_of("\t");
    let pieces = split_pieces(cs.as_slice(), nl.as_slice());
    let mut n = pieces.len();
    if n > 0 && pieces[n - 1].len() == 0 {
        n = n - 1;
    }
    let ghost ls = raw_lines(cs@);
    proof {
        assert(ls =~= views(pieces@).take(n as int));
    }
    let mut out: Vec<Vec<char>> = Vec::new();
    let mut i: usize = 0;
    while i < n
        invariant
            n <= pieces@.len(),
            nl@ == "\n"@,
            comma@ == ","@,
            comma@.len() == 1,
            tab@ == "\t"@,
            ls == views(pieces@).take(n as int),
            0 <= i <= n,
            views(out@) == ls.take(i as int).map_values(|l: Seq<char>| csv_line(l)),
        decreases n - i,
    {
        let p = pieces[i].as_slice();
        let e = skip_ws_backward(p, 0, p.len());
        let trimmed = copy_range(p, 0, e);
        proof {
            assert(p@.subrange(0, p@.len() as int) =~= p@);
        }
        let line = replace_chars(trimmed.as_slice(), comma.as_slice(), tab.as_slice());
        let ghost before = out@;
        out.push(line);
        proof {
            assert(views(out@) =~= views(before).push(line@));
            assert(ls.take(i + 1) =~= ls.take(i as int).push(ls[i as int]));
            assert(ls.take(i + 1).map_values(|l: Seq<char>| csv_line(l)) =~= ls.take(i as int).map_values(
                |l: Seq<char>| csv_line(l),
            ).push(csv_line(ls[i as int])));
        }
        i = i + 1;
    }
    proof {
        assert(ls.take(n as int) =~= ls);
        assert(views(out@) == out@.map_values(|v: Vec<char>| v@));
    }
    let joined = join_chars(&out, nl.as_slice());
    string_of(joined.as_slice())
}

// ---------------- zip containers ----------------

#[verifier::external_type_specification]
#[verifier::external_body]
#[verifier::reject_recursive_types(R)]
pub struct ExZipArchive<R>(ZipArchive<R>);

#[verifier::external_type_specification]
#[verifier::external_body]
#[verifier::reject_recursive_types(T)]
pub struct ExCursor<T>(Cursor<T>);

#[verifier::external_type_specification]
#[verifier::external_body]
pub struct ExZipError(ZipError);

/// The bytes an opened archive reads its entries from.
pub uninterp spec fn zip_source(a: ZipArchive<Cursor<Vec<u8>>>) -> Seq<u8>;

/// Whether `zip::ZipArchive::new` accepts these bytes as an archive.
pub uninterp spec fn zip_opens(bytes: Seq<u8>) -> bool;

/// The entry names `zip` lists for an archive held in these bytes, in
/// central-directory order.
pub uninterp spec fn zip_listing(bytes: Seq<u8>) -> Seq<Seq<char>>;

/// What looking up an entry by name and reading at most `limit` bytes of it
/// gives: `None` when the lookup fails; otherwise the size the directory
/// records and the bytes read (or the read error's message).
pub uninterp spec fn zip_entry(bytes: Seq<u8>, name: Seq<char>, limit: u64) -> Option<(u64, Result<Seq<u8>, Seq<char>>)>;

/// The bytes a named entry inflates to, as far as inflating it succeeds.
pub uninterp spec fn zip_entry_data(bytes: Seq<u8>, name: Seq<char>) -> Seq<u8>;

/// Opens a zip archive held in memory: `zip::ZipArchive::new` on a cursor over
/// a copy of the bytes. Claims that whether it opens is a function of the
/// bytes, and that the archive then reads from those bytes.
#[verifier::external_body]
fn zip_open(bytes: &[u8]) -> (r: Result<ZipArchive<Cursor<Vec<u8>>>, ZipError>)
    ensures
        r is Ok <==> zip_opens(bytes@),
        r matches Ok(a) ==> zip_source(a) == bytes@,
{
    ZipArchive::new(Cursor::new(bytes.to_vec()))
}

/// Number of entries: `ZipArchive::len`, the length of the map whose keys
/// `file_names` walks.
#[verifier::external_body]
fn zip_len(a: &ZipArchive<Cursor<Vec<u8>>>) -> (n: usize)
    ensures
        n == zip_listing(zip_source(*a)).len(),
{
    a.len()
}

/// Entry names: `ZipArchive::file_names`, each name turned into a `String`.
#[verifier::external_body]
fn zip_names(a: &ZipArchive<Cursor<Vec<u8>>>) -> (v: Vec<String>)
    ensures
        string_views(v@) == zip_listing(zip_source(*a)),
{
    a.file_names().map(|n| n.to_string()).collect()
}

/// Looks up the named entry with `ZipArchive::by_name`, then takes
/// `ZipFile::size` (the uncompressed size the directory records) and reads at
/// most `limit` bytes with `Read::take(limit).read_to_end`, a read error turned
/// into its `Display` text. Claims that the outcome is a function of the
/// archive's bytes, the name and the limit; that a lookup succeeds only for a
/// listed name; that a read that succeeds gives the entry's inflated bytes up
/// to `limit` (`Read::take` stops at the limit or at the end of the entry);
/// and that the archive keeps reading the same bytes.
#[verifier::external_body]
fn zip_read(a: &mut ZipArchive<Cursor<Vec<u8>>>, name: &str, limit: u64) -> (r: Result<
    (u64, Result<Vec<u8>, String>),
    ZipError,
>)
    ensures
        zip_source(*final(a)) == zip_source(*old(a)),
        match r {
            Err(_) => zip_entry(zip_source(*old(a)), name@, limit) is None,
            Ok((size, read)) => zip_entry(zip_source(*old(a)), name@, limit) == Some(
                (size, read_view(read)),
            ),
        },
        r is Ok ==> zip_listing(zip_source(*old(a))).contains(name@),
        r matches Ok((_, Ok(d))) ==> d@.len() <= limit,
        r matches Ok((_, Ok(d))) ==> d@ == zip_entry_data(zip_source(*old(a)), name@).take(
            if zip_entry_data(zip_source(*old(a)), name@).len() < limit {
                zip_entry_data(zip_source(*old(a)), name@).len() as int
            } else {
                limit as int
            },
        ),
{
    let mut f = a.by_name(name)?;
    let size = f.size();
    let mut buf = Vec::new();
    let read = match f.by_ref().take(limit).read_to_end(&mut buf) {
        Ok(_) => Ok(buf),
        Err(e) => Err(e.to_string()),
    };
    Ok((size, read))
}

/// Message of a zip error (its `Display` text).
#[verifier::external_body]
fn zip_error_text(e: &ZipError) -> String {
    e.to_string()
}

/// A read outcome by its views.
pub open spec fn read_view(read: Result<Vec<u8>, String>) -> Result<Seq<u8>, Seq<char>> {
    match read {
        Ok(d) => Ok(d@),
        Err(m) => Err(m@),
    }
}

/// The first `MAX_CHARS` characters of a text.
pub open spec fn cap_chars(t: Seq<char>) -> Seq<char> {
    if t.len() > MAX_CHARS {
        t.take(MAX_CHARS as int)
    } else {
        t
    }
}

fn cap_chars_exec(t: Vec<char>) -> (r: Vec<char>)
    ensures
        r@ == cap_chars(t@),
{
    if t.len() > MAX_CHARS {
        copy_range(t.as_slice(), 0, MAX_CHARS)
    } else {
        t
    }
}

/// `a + b + c` as one string.
fn concat3(a: &str, b: &str, c: &str) -> (r: String)
    ensures
        r@ == a@ + b@ + c@,
{
    let mut r = String::new();
    push_str(&mut r, a);
    push_str(&mut r, b);
    push_str(&mut r, c);
    proof {
        assert(r@ =~= a@ + b@ + c@);
    }
    r
}

/// The text of a zip entry from what reading it gave: its recorded size and
/// the bytes read must both stay under `MAX_ZIP_ENTRY_BYTES`.
pub open spec fn entry_data(size: u64, read: Result<Seq<u8>, Seq<char>>) -> Option<Seq<char>> {
    if size > MAX_ZIP_ENTRY_BYTES {
        None
    } else {
        match read {
            Ok(d) => if d.len() >= MAX_ZIP_ENTRY_BYTES {
                None
            } else {
                Some(utf8_lossy(d))
            },
            Err(_) => None,
        }
    }
}

/// The error an entry gives when it yields no text: a recorded or actual size
/// that large is a likely bomb; a read error names the entry (`what`).
pub open spec fn entry_error_is(size: u64, read: Result<Seq<u8>, Seq<char>>, what: Seq<char>, e: ParseError) -> bool {
    if size > MAX_ZIP_ENTRY_BYTES {
        e matches ParseError::ZipTooLarge(n) && n == size as usize
    } else {
        match read {
            Err(m) => e matches ParseError::Zip(msg) && msg@ == what + " 读取失败: "@ + m,
            Ok(d) => e matches ParseError::ZipTooLarge(n) && n == d.len(),
        }
    }
}

/// Text of a zip entry from what reading it gave: its recorded size and at
/// most `MAX_ZIP_ENTRY_BYTES` bytes read (or the read error's message).
/// An entry recorded as, or read as, that large is refused as a likely bomb.
pub fn entry_text(size: u64, read: Result<Vec<u8>, String>, what: &str) -> (r: Result<
    String,
    ParseError,
>)
    ensures
        match entry_data(size, read_view(read)) {
            Some(t) => r matches Ok(x) && x@ == t,
            None => r matches Err(e) && entry_error_is(size, read_view(read), what@, e),
        },
{
    if size > MAX_ZIP_ENTRY_BYTES {
        return Err(ParseError::ZipTooLarge(size as usize));
    }
    match read {
        Err(m) => Err(ParseError::Zip(concat3(what, " 读取失败: ", m.as_str()))),
        Ok(d) => {
            if d.len() as u64 >= MAX_ZIP_ENTRY_BYTES {
                Err(ParseError::ZipTooLarge(d.len()))
            } else {
                Ok(lossy_text(d.as_slice()))
            }
        },
    }
}

/// What reading a named entry under the limits gives, for an archive held in
/// `bytes`: `None` when the lookup fails.
pub open spec fn entry_read_is(bytes: Seq<u8>, name: Seq<char>, what: Seq<char>, r: Result<Result<String, ParseError>, ZipError>) -> bool {
    match zip_entry(bytes, name, MAX_ZIP_ENTRY_BYTES) {
        None => r is Err,
        Some((size, read)) => r matches Ok(x) && match entry_data(size, read) {
            Some(t) => x matches Ok(s) && s@ == t,
            None => x matches Err(e) && entry_error_is(size, read, what, e),
        },
    }
}

/// The inflated bytes of an entry, up to the entry read limit.
pub open spec fn entry_head(bytes: Seq<u8>, name: Seq<char>) -> Seq<u8> {
    let d = zip_entry_data(bytes, name);
    d.take(if d.len() < MAX_ZIP_ENTRY_BYTES { d.len() as int } else { MAX_ZIP_ENTRY_BYTES as int })
}

/// Reads a zip entry as text (the size pre-check and the bounded read).
fn read_entry_text(a: &mut ZipArchive<Cursor<Vec<u8>>>, name: &str, what: &str) -> (r: Result<
    Result<String, ParseError>,
    ZipError,
>)
    ensures
        zip_source(*final(a)) == zip_source(*old(a)),
        entry_read_is(zip_source(*old(a)), name@, what@, r),
        r is Ok ==> match zip_entry(zip_source(*old(a)), name@, MAX_ZIP_ENTRY_BYTES) {
            Some((_, Ok(d))) => d == entry_head(zip_source(*old(a)), name@),
            _ => true,
        },
{
    match zip_read(a, name, MAX_ZIP_ENTRY_BYTES) {
        Err(e) => Err(e),
        Ok((size, read)) => Ok(entry_text(size, read, what)),
    }
}

/// The docx outcome for the text of `word/document.xml`: its plain text, capped
/// at `MAX_CHARS`, or nothing when that is blank.
pub open spec fn docx_outcome(xml: Seq<char>) -> Option<Seq<char>> {
    let t = cap_chars(docx_text(xml));
    if is_blank(t) {
        None
    } else {
        Some(t)
    }
}

fn blank_or_some(t: Vec<char>) -> (r: Option<String>)
    ensures
        is_blank(t@) ==> r is None,
        !is_blank(t@) ==> (r matches Some(s) && s@ == t@),
{
    if is_blank_exec(t.as_slice()) {
        None
    } else {
        Some(string_of(t.as_slice()))
    }
}

/// The outcome of reading a docx held in `bytes`: the archive must open and
/// list at most `MAX_ZIP_ENTRIES` entries, and `word/document.xml` must read
/// under the entry limits; its text then gives the result.
pub open spec fn docx_result(bytes: Seq<u8>, r: Result<Option<String>, ParseError>) -> bool {
    if !zip_opens(bytes) {
        r matches Err(ParseError::Zip(_))
    } else if zip_listing(bytes).len() > MAX_ZIP_ENTRIES {
        r matches Err(ParseError::ZipTooLarge(n)) && n == zip_listing(bytes).len()
    } else {
        match zip_entry(bytes, "word/document.xml"@, MAX_ZIP_ENTRY_BYTES) {
            None => r matches Err(ParseError::Zip(_)),
            Some((size, read)) => match entry_data(size, read) {
                None => r matches Err(e) && entry_error_is(size, read, "docx document.xml"@, e),
                Some(xml) => match docx_outcome(xml) {
                    Some(t) => r matches Ok(Some(s)) && s@ == t,
                    None => r matches Ok(None),
                },
            },
        }
    }
}

/// docx to plain text: `word/document.xml` read with the zip limits, then
/// scanned for its text. An empty document gives `None`.
pub fn extract_docx(bytes: &[u8]) -> (r: Result<Option<String>, ParseError>)
    ensures
        docx_result(bytes@, r),
        r is Ok ==> zip_entry_data(bytes@, "word/document.xml"@).len() < MAX_ZIP_ENTRY_BYTES,
        (zip_opens(bytes@) && zip_listing(bytes@).len() <= MAX_ZIP_ENTRIES && (zip_entry(
            bytes@,
            "word/document.xml"@,
            MAX_ZIP_ENTRY_BYTES,
        ) matches Some((_, Ok(_)))) && zip_entry_data(bytes@, "word/document.xml"@).len() >= MAX_ZIP_ENTRY_BYTES)
            ==> r matches Err(ParseError::ZipTooLarge(_)),
{
    let mut archive = match zip_open(bytes) {
        Ok(a) => a,
        Err(e) => return Err(ParseError::Zip(zip_error_text(&e))),
    };
    let count = zip_len(&archive);
    if count > MAX_ZIP_ENTRIES {
        return Err(ParseError::ZipTooLarge(count));
    }
    let xml = match read_entry_text(&mut archive, "word/document.xml", "docx document.xml") {
        Err(e) => {
            return Err(
                ParseError::Zip(concat3("docx 缺少 word/document.xml: ", zip_error_text(&e).as_str(), "")),
            );
        },
        Ok(Err(pe)) => return Err(pe),
        Ok(Ok(x)) => x,
    };
    let cs = chars_of(xml.as_str());
    let text = docx_xml_to_text(&cs);
    let capped = cap_chars_exec(text);
    Ok(blank_or_some(capped))
}

/// Whether a zip entry is a worksheet: under `xl/worksheets/`, ending in
/// `.xml`, and not a relationship part.
pub open spec fn is_sheet_entry(n: Seq<char>) -> bool {
    starts_with(n, "xl/worksheets/"@) && n.len() >= 4 && n.subrange(n.len() - 4, n.len() as int)
        == ".xml"@ && find_from(n, "_rels"@, 0) is None
}

fn is_sheet_entry_exec(n: &str) -> (r: bool)
    ensures
        r == is_sheet_entry(n@),
{
    proof {
        reveal_strlit(".xml");
    }
    let v = chars_of(n);
    let pre = chars_of("xl/worksheets/");
    let suf = chars_of(".xml");
    let rels = chars_of("_rels");
    if !occurs_at_exec(v.as_slice(), pre.as_slice(), 0) {
        return false;
    }
    if v.len() < 4 {
        return false;
    }
    if !occurs_at_exec(v.as_slice(), suf.as_slice(), v.len() - 4) {
        return false;
    }
    match find_chars(v.as_slice(), rels.as_slice(), 0) {
        Some(_) => false,
        None => true,
    }
}

/// The non-blank texts, in order.
pub open spec fn non_blank(ts: Seq<Seq<char>>) -> Seq<Seq<char>>
    decreases ts.len(),
{
    if ts.len() == 0 {
        seq![]
    } else if is_blank(ts.last()) {
        non_blank(ts.drop_last())
    } else {
        non_blank(ts.drop_last()).push(ts.last())
    }
}

/// The workbook outcome for the texts of its sheets: the non-blank ones joined
/// by newlines and capped at `MAX_CHARS`; refused (with the running total) as
/// soon as they add up to more than `MAX_CHARS`; nothing when blank.
pub open spec fn xlsx_outcome(sheets: Seq<Seq<char>>) -> Result<Option<Seq<char>>, nat> {
    match limited(non_blank(sheets), 0) {
        Err(t) => Err(t),
        Ok(kept) => {
            let t = cap_chars(join_with(kept, "\n"@));
            if is_blank(t) {
                Ok(None)
            } else {
                Ok(Some(t))
            }
        },
    }
}

proof fn lemma_total_len_push(xs: Seq<Seq<char>>, y: Seq<char>, j: int)
    requires
        0 <= j <= xs.len(),
    ensures
        total_len(xs.push(y), j) == total_len(xs, j),
    decreases j,
{
    if j > 0 {
        lemma_total_len_push(xs, y, j - 1);
        assert(xs.push(y)[j - 1] == xs[j - 1]);
    }
}

proof fn lemma_limited_push(xs: Seq<Seq<char>>, y: Seq<char>, k: int)
    requires
        0 <= k <= xs.len(),
        limited(xs, k) == Ok::<Seq<Seq<char>>, nat>(xs),
    ensures
        limited(xs.push(y), k) == (if total_len(xs.push(y), xs.len() as int + 1) > MAX_CHARS {
            Err::<Seq<Seq<char>>, nat>(total_len(xs.push(y), xs.len() as int + 1))
        } else {
            Ok(xs.push(y))
        }),
    decreases xs.len() - k,
{
    lemma_total_len_push(xs, y, k + 1 - 1);
    if k < xs.len() {
        lemma_total_len_push(xs, y, k + 1);
        lemma_limited_push(xs, y, k + 1);
    }
}

/// The workbook text from its kept sheet texts: joined by newlines, capped,
/// nothing when blank.
fn xlsx_finish(kept: &Vec<Vec<char>>) -> (r: Option<String>)
    ensures
        ({
            let t = cap_chars(join_with(views(kept@), "\n"@));
            if is_blank(t) {
                r is None
            } else {
                r matches Some(s) && s@ == t
            }
        }),
{
    let nl = chars_of("\n");
    let joined = join_chars(kept, nl.as_slice());
    proof {
        assert(views(kept@) == kept@.map_values(|v: Vec<char>| v@));
    }
    let capped = cap_chars_exec(joined);
    blank_or_some(capped)
}

/// Adds one sheet text to the kept texts (blank ones are skipped), refusing
/// once the kept texts add up to more than `MAX_CHARS`.
fn xlsx_keep(kept: &mut Vec<Vec<char>>, total: &mut usize, sheet: Vec<char>, Ghost(ts): Ghost<
    Seq<Seq<char>>,
>) -> (r: Result<(), ParseError>)
    requires
        views(old(kept)@) == non_blank(ts),
        limited(non_blank(ts), 0) == Ok::<Seq<Seq<char>>, nat>(non_blank(ts)),
        *old(total) as nat == total_len(non_blank(ts), non_blank(ts).len() as int),
        *old(total) <= MAX_CHARS,
    ensures
        match limited(non_blank(ts.push(sheet@)), 0) {
            Err(t) => r matches Err(ParseError::ZipTooLarge(n)) && n == saturate(t),
            Ok(k) => r is Ok && k == non_blank(ts.push(sheet@)) && views(final(kept)@) == k
                && *final(total) as nat == total_len(k, k.len() as int) && *final(total) <= MAX_CHARS,
        },
{
    let ghost nts = ts.push(sheet@);
    proof {
        assert(nts.drop_last() =~= ts);
        assert(nts.last() == sheet@);
    }
    if is_blank_exec(sheet.as_slice()) {
        return Ok(());
    }
    let ghost xs = non_blank(ts);
    proof {
        lemma_limited_push(xs, sheet@, 0);
        lemma_total_len_push(xs, sheet@, xs.len() as int);
        assert(xs.push(sheet@)[xs.len() as int] == sheet@);
    }
    let len = sheet.len();
    if len > MAX_CHARS - *total {
        let over = if len > usize::MAX - *total {
            usize::MAX
        } else {
            *total + len
        };
        return Err(ParseError::ZipTooLarge(over));
    }
    *total = *total + len;
    let ghost before = kept@;
    kept.push(sheet);
    proof {
        assert(views(kept@) =~= views(before).push(sheet@));
    }
    Ok(())
}

/// The workbook outcomes that sheet texts can give.
pub open spec fn xlsx_outcome_matches(o: Option<String>, sheets: Seq<Seq<char>>) -> bool {
    match xlsx_outcome(sheets) {
        Ok(Some(t)) => o matches Some(s) && s@ == t,
        Ok(None) => o is None,
        Err(_) => false,
    }
}

/// The text a worksheet entry gives when it reads under the entry limits.
pub open spec fn sheet_entry_text(bytes: Seq<u8>, name: Seq<char>) -> Option<Seq<char>> {
    match zip_entry(bytes, name, MAX_ZIP_ENTRY_BYTES) {
        Some((size, read)) => entry_data(size, read),
        None => None,
    }
}

/// The worksheets among the listed `names`, read in order: `Some(Ok(texts))`
/// with the text of every worksheet; `Some(Err(total))` where the non-blank
/// texts first add up to more than `MAX_CHARS`; `None` where a worksheet
/// first fails to read. Reading stops at the first of these.
pub open spec fn xlsx_scan(bytes: Seq<u8>, names: Seq<Seq<char>>, shared: Seq<Seq<char>>) -> Option<
    Result<Seq<Seq<char>>, nat>,
>
    decreases names.len(),
{
    if names.len() == 0 {
        Some(Ok(seq![]))
    } else {
        match xlsx_scan(bytes, names.drop_last(), shared) {
            Some(Ok(ts)) => if !is_sheet_entry(names.last()) {
                Some(Ok(ts))
            } else {
                match sheet_entry_text(bytes, names.last()) {
                    None => None,
                    Some(x) => {
                        let more = ts.push(sheet_text(x, shared));
                        match limited(non_blank(more), 0) {
                            Err(t) => Some(Err(t)),
                            Ok(_) => Some(Ok(more)),
                        }
                    },
                }
            },
            other => other,
        }
    }
}

/// The worksheet at which reading the listed `names` stopped, when a
/// worksheet failed to read.
pub open spec fn xlsx_scan_stop(bytes: Seq<u8>, names: Seq<Seq<char>>, shared: Seq<Seq<char>>) -> Seq<char>
    decreases names.len(),
{
    if names.len() == 0 {
        seq![]
    } else {
        match xlsx_scan(bytes, names.drop_last(), shared) {
            Some(Ok(_)) => names.last(),
            _ => xlsx_scan_stop(bytes, names.drop_last(), shared),
        }
    }
}

/// The outcome once the shared strings are known: every worksheet read in
/// listing order, under the aggregate text limit. A worksheet that fails to
/// read gives the error of its lookup or of its entry limits.
pub open spec fn xlsx_sheets_result(bytes: Seq<u8>, shared: Seq<Seq<char>>, r: Result<Option<String>, ParseError>) -> bool {
    match xlsx_scan(bytes, zip_listing(bytes), shared) {
        None => {
            let name = xlsx_scan_stop(bytes, zip_listing(bytes), shared);
            match zip_entry(bytes, name, MAX_ZIP_ENTRY_BYTES) {
                None => r matches Err(ParseError::Zip(_)),
                Some((size, read)) => r matches Err(e) && entry_error_is(size, read, name, e),
            }
        },
        Some(Err(t)) => r matches Err(ParseError::ZipTooLarge(n)) && n == saturate(t),
        Some(Ok(ts)) => r matches Ok(o) && xlsx_outcome_matches(o, ts),
    }
}

/// The shared strings of a workbook held in `bytes` are `shared`, with the
/// archive open and within the entry count.
pub open spec fn xlsx_shared_is(bytes: Seq<u8>, shared: Seq<Seq<char>>) -> bool {
    &&& zip_opens(bytes)
    &&& zip_listing(bytes).len() <= MAX_ZIP_ENTRIES
    &&& match zip_entry(bytes, "xl/sharedStrings.xml"@, MAX_ZIP_ENTRY_BYTES) {
        None => shared == Seq::<Seq<char>>::empty(),
        Some((size, read)) => match entry_data(size, read) {
            None => false,
            Some(x) => limited(shared_items(x), 0) == Ok::<Seq<Seq<char>>, nat>(shared),
        },
    }
}

/// The outcome of reading an xlsx held in `bytes`: the archive must open and
/// list at most `MAX_ZIP_ENTRIES` entries; `xl/sharedStrings.xml`, when it can
/// be looked up, must read under the entry limits and hold at most
/// `MAX_CHARS` characters of shared strings; then the worksheets give the text.
pub open spec fn xlsx_result(bytes: Seq<u8>, r: Result<Option<String>, ParseError>) -> bool {
    if !zip_opens(bytes) {
        r matches Err(ParseError::Zip(_))
    } else if zip_listing(bytes).len() > MAX_ZIP_ENTRIES {
        r matches Err(ParseError::ZipTooLarge(n)) && n == zip_listing(bytes).len()
    } else {
        match zip_entry(bytes, "xl/sharedStrings.xml"@, MAX_ZIP_ENTRY_BYTES) {
            None => xlsx_sheets_result(bytes, seq![], r),
            Some((size, read)) => match entry_data(size, read) {
                None => r matches Err(e) && entry_error_is(size, read, "sharedStrings"@, e),
                Some(x) => match limited(shared_items(x), 0) {
                    Err(t) => r matches Err(ParseError::ZipTooLarge(n)) && n == saturate(t),
                    Ok(items) => xlsx_sheets_result(bytes, items, r),
                },
            },
        }
    }
}

/// xlsx to plain text: shared strings plus every worksheet, rows as lines and
/// cells separated by tabs, under the zip and text limits. An empty workbook
/// gives `None`.
pub fn extract_xlsx(bytes: &[u8]) -> (r: Result<Option<String>, ParseError>)
    ensures
        xlsx_result(bytes@, r),
        r is Ok && zip_entry(bytes@, "xl/sharedStrings.xml"@, MAX_ZIP_ENTRY_BYTES) is Some ==> zip_entry_data(
            bytes@,
            "xl/sharedStrings.xml"@,
        ).len() < MAX_ZIP_ENTRY_BYTES,
{
    let mut archive = match zip_open(bytes) {
        Ok(a) => a,
        Err(e) => return Err(ParseError::Zip(zip_error_text(&e))),
    };
    let count = zip_len(&archive);
    if count > MAX_ZIP_ENTRIES {
        return Err(ParseError::ZipTooLarge(count));
    }
    let ghost src = bytes@;
    let shared: Vec<Vec<char>> = match read_entry_text(&mut archive, "xl/sharedStrings.xml", "sharedStrings") {
        Err(_) => {
            let v: Vec<Vec<char>> = Vec::new();
            proof {
                assert(views(v@) =~= Seq::<Seq<char>>::empty());
            }
            v
        },
        Ok(Err(e)) => return Err(e),
        Ok(Ok(x)) => {
            let cs = chars_of(x.as_str());
            match xlsx_shared_strings(&cs) {
                Ok(v) => v,
                Err(e) => return Err(e),
            }
        },
    };
    let ghost sh = views(shared@);
    proof {
        assert(xlsx_shared_is(src, sh));
    }
    let ghost shared_whole = zip_entry(src, "xl/sharedStrings.xml"@, MAX_ZIP_ENTRY_BYTES) is Some ==> zip_entry_data(
        src,
        "xl/sharedStrings.xml"@,
    ).len() < MAX_ZIP_ENTRY_BYTES;
    assert(shared_whole);
    let names = zip_names(&archive);
    let ghost all = string_views(names@);
    let mut kept: Vec<Vec<char>> = Vec::new();
    let mut total: usize = 0;
    let ghost mut ts: Seq<Seq<char>> = seq![];
    let mut i: usize = 0;
    proof {
        assert(views(kept@) =~= non_blank(ts));
        assert(limited(non_blank(ts), 0) == Ok::<Seq<Seq<char>>, nat>(non_blank(ts)));
        assert(all.take(0) =~= Seq::<Seq<char>>::empty());
    }
    while i < names.len()
        invariant
            0 <= i <= names@.len(),
            all == string_views(names@),
            all == zip_listing(src),
            src == bytes@,
            zip_source(archive) == src,
            sh == views(shared@),
            xlsx_shared_is(src, sh),
            shared_whole,
            shared_whole == (zip_entry(src, "xl/sharedStrings.xml"@, MAX_ZIP_ENTRY_BYTES) is Some ==> zip_entry_data(
                src,
                "xl/sharedStrings.xml"@,
            ).len() < MAX_ZIP_ENTRY_BYTES),
            xlsx_scan(src, all.take(i as int), sh) == Some(Ok::<Seq<Seq<char>>, nat>(ts)),
            views(kept@) == non_blank(ts),
            limited(non_blank(ts), 0) == Ok::<Seq<Seq<char>>, nat>(non_blank(ts)),
            total as nat == total_len(non_blank(ts), non_blank(ts).len() as int),
            total <= MAX_CHARS,
        decreases names@.len() - i,
    {
        let name = names[i].as_str();
        let ghost pre = all.take(i as int);
        let ghost nxt = all.take(i + 1);
        proof {
            assert(nxt.drop_last() =~= pre);
            assert(nxt.last() == name@);
        }
        if is_sheet_entry_exec(name) {
            let xml = match read_entry_text(&mut archive, name, name) {
                Err(e) => {
                    let r = Err(ParseError::Zip(concat3(name, " 读取失败: ", zip_error_text(&e).as_str())));
                    proof {
                        assert(xlsx_scan(src, nxt, sh) is None);
                        assert(xlsx_scan_stop(src, nxt, sh) == name@);
                        lemma_scan_stops(src, all, sh, i as int + 1);
                        lemma_xlsx_result(src, sh, r);
                    }
                    return r;
                },
                Ok(Err(e)) => {
                    proof {
                        assert(xlsx_scan(src, nxt, sh) is None);
                        assert(xlsx_scan_stop(src, nxt, sh) == name@);
                        lemma_scan_stops(src, all, sh, i as int + 1);
                        assert(e matches ParseError::Zip(_) || e matches ParseError::ZipTooLarge(_));
                        lemma_xlsx_result(src, sh, Err(e));
                    }
                    return Err(e);
                },
                Ok(Ok(x)) => x,
            };
            let cs = chars_of(xml.as_str());
            let sheet = xlsx_sheet_to_text(&cs, &shared);
            let ghost sv = sheet@;
            match xlsx_keep(&mut kept, &mut total, sheet, Ghost(ts)) {
                Ok(()) => {
                    proof {
                        ts = ts.push(sv);
                    }
                },
                Err(e) => {
                    proof {
                        assert(xlsx_scan(src, nxt, sh) matches Some(Err(t)) && e matches ParseError::ZipTooLarge(n) && n == saturate(t));
                        lemma_scan_stops(src, all, sh, i as int + 1);
                        lemma_xlsx_result(src, sh, Err(e));
                    }
                    return Err(e);
                },
            }
        }
        i = i + 1;
    }
    proof {
        assert(all.take(names@.len() as int) =~= all);
    }
    let out = xlsx_finish(&kept);
    proof {
        assert(xlsx_outcome_matches(out, ts));
        lemma_xlsx_result(src, sh, Ok(out));
    }
    Ok(out)
}

/// With the shared strings settled, the workbook outcome is that of its worksheets.
proof fn lemma_xlsx_result(bytes: Seq<u8>, shared: Seq<Seq<char>>, r: Result<Option<String>, ParseError>)
    requires
        xlsx_shared_is(bytes, shared),
        xlsx_sheets_result(bytes, shared, r),
    ensures
        xlsx_result(bytes, r),
{
}

/// Once reading the worksheets has stopped, reading more names changes nothing.
proof fn lemma_scan_stops(bytes: Seq<u8>, names: Seq<Seq<char>>, shared: Seq<Seq<char>>, k: int)
    requires
        0 <= k <= names.len(),
        !(xlsx_scan(bytes, names.take(k), shared) matches Some(Ok(_))),
    ensures
        xlsx_scan(bytes, names, shared) == xlsx_scan(bytes, names.take(k), shared),
        xlsx_scan_stop(bytes, names, shared) == xlsx_scan_stop(bytes, names.take(k), shared),
    decreases names.len() - k,
{
    if k < names.len() {
        let nxt = names.take(k + 1);
        assert(nxt.drop_last() =~= names.take(k));
        assert(xlsx_scan(bytes, nxt, shared) == xlsx_scan(bytes, names.take(k), shared));
        assert(xlsx_scan_stop(bytes, nxt, shared) == xlsx_scan_stop(bytes, names.take(k), shared));
        lemma_scan_stops(bytes, names, shared, k + 1);
    } else {
        assert(names.take(k) =~= names);
    }
}

// ---------------- PDF ----------------

/// The page limit, given the page count `lopdf` read (none when the
/// document did not load): more than `MAX_PAGES` pages are refused before any
/// text is extracted.
pub fn pdf_page_check(pages: Option<usize>) -> (r: Result<(), ParseError>)
    ensures
        match pages {
            Some(n) if n > MAX_PAGES => r matches Err(ParseError::TooManyPages(m)) && m == n,
            _ => r is Ok,
        },
{
    match pages {
        Some(n) => if n > MAX_PAGES {
            Err(ParseError::TooManyPages(n))
        } else {
            Ok(())
        },
        None => Ok(()),
    }
}

/// The PDF outcome for a page count and an extractor result: refused above
/// `MAX_PAGES`; an extractor error becomes `ParseError::Pdf`; a blank text
/// layer (a scan) gives `None`; otherwise the text capped at `MAX_CHARS`.
pub open spec fn pdf_outcome_is(
    pages: Option<usize>,
    text: Result<Seq<char>, Seq<char>>,
    r: Result<Option<String>, ParseError>,
) -> bool {
    match pages {
        Some(n) if n > MAX_PAGES => r matches Err(ParseError::TooManyPages(m)) && m == n,
        _ => match text {
            Err(msg) => r matches Err(ParseError::Pdf(m)) && m@ == msg,
            Ok(t) => if is_blank(t) {
                r matches Ok(None)
            } else {
                r matches Ok(Some(s)) && s@ == cap_chars(t)
            },
        },
    }
}

/// The PDF outcome for a page count (when the document loaded) and the text the
/// extractor gave, as `pdf_outcome_is` states it.
pub fn pdf_outcome(pages: Option<usize>, text: Result<String, String>) -> (r: Result<Option<String>, ParseError>)
    ensures
        pdf_outcome_is(pages, match text { Ok(t) => Ok(t@), Err(m) => Err(m@) }, r),
{
    match pdf_page_check(pages) {
        Err(e) => return Err(e),
        Ok(()) => {},
    }
    match text {
        Err(msg) => Err(ParseError::Pdf(msg)),
        Ok(t) => {
            let cs = chars_of(t.as_str());
            if is_blank_exec(cs.as_slice()) {
                Ok(None)
            } else {
                let capped = cap_chars_exec(cs);
                Ok(Some(string_of(capped.as_slice())))
            }
        },
    }
}

/// Turns file bytes into plain text:
/// text and Markdown decode as UTF-8 (lossy); CSV cells become tab separated;
/// docx / xlsx are read from their zip container; images are handed to OCR
/// (`Unsupported`); business entries have no file text (`None`). Files above
/// `MAX_FILE_BYTES` are refused, whatever their kind. A PDF within the size
/// limit is not read here: the PDF parsers can
/// panic or exhaust the stack on malformed files, so their calls run apart, on
/// a thread of their own, and `pdf_page_check` and `pdf_outcome` decide the
/// result from what they give.
pub fn extract_text(kind: Kind, bytes: &[u8]) -> (r: Result<Option<String>, ParseError>)
    requires
        kind != Kind::Pdf || bytes@.len() > MAX_FILE_BYTES,
    ensures
        bytes@.len() > MAX_FILE_BYTES ==> (r matches Err(ParseError::TooLarge(n)) && n == bytes@.len()),
        bytes@.len() <= MAX_FILE_BYTES ==> match kind {
            Kind::Txt | Kind::Markdown => r matches Ok(Some(s)) && s@ == utf8_lossy(bytes@),
            Kind::Csv => r matches Ok(Some(s)) && s@ == csv_text(utf8_lossy(bytes@)),
            Kind::Image => r matches Err(ParseError::Unsupported(m)) && m@ == "图片需 OCR（Rust 侧 tesseract/RapidOCR）"@,
            Kind::Business => r matches Ok(None),
            Kind::Pdf => true,
            Kind::Docx => docx_result(bytes@, r),
            Kind::Xlsx => xlsx_result(bytes@, r),
        },
{
    match check_size(bytes) {
        Err(e) => return Err(e),
        Ok(()) => {},
    }
    match kind {
        Kind::Txt | Kind::Markdown => Ok(Some(lossy_text(bytes))),
        Kind::Csv => Ok(Some(parse_csv(bytes))),
        Kind::Pdf => {
            proof {
                assert(false);
            }
            Ok(None)
        },
        Kind::Docx => extract_docx(bytes),
        Kind::Xlsx => extract_xlsx(bytes),
        Kind::Image => Err(ParseError::Unsupported(String::from_str("图片需 OCR（Rust 侧 tesseract/RapidOCR）"))),
        Kind::Business => Ok(None),
    }
}

} // verus!
