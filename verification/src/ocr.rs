//! OCR results: the recognized pages of a scan joined into one text.

use vstd::prelude::*;

use crate::text::{decimal, push_decimal, push_text, string_of};

verus! {

/// One page of the joined text: a page header, then the page's text.
pub open spec fn page_block(i: nat, text: Seq<char>) -> Seq<char> {
    "\n--- 第 "@ + decimal(i + 1) + " 页 ---\n"@ + text
}

pub open spec fn pages_text(pages: Seq<Seq<char>>) -> Seq<char>
    decreases pages.len(),
{
    if pages.len() == 0 {
        seq![]
    } else {
        pages_text(pages.drop_last()) + page_block((pages.len() - 1) as nat, pages.last())
    }
}

/// One step of recognizing a scan page by page: the page's text added under
/// its header, or, when the page failed, the text left as it is and the
/// error returned, so that no later page is recognized.
pub fn ocr_add_page(out: &mut Vec<char>, index: u64, page: &Result<String, String>) -> (r: Result<(), String>)
    requires
        index < u64::MAX,
    ensures
        match page {
            Ok(t) => r is Ok && final(out)@ == old(out)@ + page_block(index as nat, t@),
            Err(e) => r matches Err(m) && m == e && final(out)@ == old(out)@,
        },
{
    match page {
        Ok(t) => {
            let ghost before = out@;
            push_text(out, "\n--- 第 ");
            push_decimal(index + 1, out);
            push_text(out, " 页 ---\n");
            push_text(out, t.as_str());
            proof {
                assert(out@ =~= before + page_block(index as nat, t@));
            }
            Ok(())
        },
        Err(e) => Err(e.clone()),
    }
}

/// The recognized pages joined, each under a "--- 第 N 页 ---" header; the
/// error of the first page that failed, if one did.
pub fn ocr_images(pages: &Vec<Result<String, String>>) -> (r: Result<String, String>)
    requires
        pages@.len() < u64::MAX,
    ensures
        (forall|i: int| 0 <= i < pages@.len() ==> pages@[i] is Ok) ==> (r matches Ok(t) && t@ == pages_text(
            pages@.map_values(|p: Result<String, String>| p->Ok_0@),
        )),
        forall|i: int|
            0 <= i < pages@.len() && pages@[i] is Err && (forall|k: int| 0 <= k < i ==> pages@[k] is Ok) ==> (
            r matches Err(e) && e == pages@[i]->Err_0),
{
    let ghost texts = pages@.map_values(|p: Result<String, String>| p->Ok_0@);
    let mut out: Vec<char> = Vec::new();
    let mut i: usize = 0;
    while i < pages.len()
        invariant
            0 <= i <= pages@.len(),
            pages@.len() < u64::MAX,
            texts == pages@.map_values(|p: Result<String, String>| p->Ok_0@),
            forall|k: int| 0 <= k < i ==> pages@[k] is Ok,
            out@ == pages_text(texts.take(i as int)),
        decreases pages@.len() - i,
    {
        match ocr_add_page(&mut out, i as u64, &pages[i]) {
            Ok(()) => {
                proof {
                    assert(texts.take(i + 1).drop_last() =~= texts.take(i as int));
                    assert(out@ =~= pages_text(texts.take(i + 1)));
                }
            },
            Err(e) => {
                return Err(e);
            },
        }
        i = i + 1;
    }
    proof {
        assert(texts.take(pages@.len() as int) =~= texts);
    }
    Ok(string_of(out.as_slice()))
}

} // verus!
