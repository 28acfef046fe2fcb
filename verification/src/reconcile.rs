//! The result reconciler.
//!
//! A completed job's output blob is newline-delimited JSON, one result per
//! line, keyed by the custom identifiers the planner submitted — in
//! whatever order the provider produced them, possibly with items missing or
//! failed. Reconciliation maps that stream back onto the caller's original
//! identifier order: the output always has exactly one outcome per
//! submitted identifier, in the caller's order, and one item's failure
//! never disturbs its neighbours.

use vstd::assert_by_contradiction;
use vstd::prelude::*;
use vstd::string::StrSliceExecFns;

use crate::batch::{field, field_str, str_or_empty, Batch, BatchItemError, BatchItemResponse,
    BatchResponseItem, BatchStatus, GetBatchResultsError};
use crate::chat_completions::{choice_of, choices_of, chat_response_ok, error_reply_of,
    OpenAiError};
use crate::json::{Json, JsonV};
use crate::strutil::str_eq;

verus! {

/// The small status number of a wrapped call, or zero.
pub open spec fn status_code_of(v: JsonV) -> u16 {
    match field(v, "status_code"@) {
        Some(JsonV::Num(raw)) => if crate::strutil::all_digits(raw) && crate::strutil::digits_val(
            raw,
        ) < 0x10000 {
            crate::strutil::digits_val(raw) as u16
        } else {
            0
        },
        _ => 0,
    }
}

/// A readable result line: a `custom_id`, a body under any `response`
/// object, a message under any `error` object.
pub open spec fn result_item_ok(v: JsonV) -> bool {
    &&& field_str(v, "custom_id"@) is Some
    &&& (match field(v, "response"@) {
        Some(JsonV::Obj(_)) => field(field(v, "response"@)->0, "body"@) is Some,
        _ => true,
    })
    &&& (match field(v, "error"@) {
        Some(JsonV::Obj(_)) => field_str(field(v, "error"@)->0, "message"@) is Some,
        _ => true,
    })
}

/// What a parsed result line's fields are, given its JSON form. A missing
/// or null `response` or `error` is absent; `id` and the inner string
/// fields default to empty when not given as strings.
pub open spec fn result_item_matches(v: JsonV, it: BatchResponseItem) -> bool {
    &&& field_str(v, "custom_id"@) == Some(it.custom_id@)
    &&& it.id@ == str_or_empty(field_str(v, "id"@))
    &&& (match it.response {
        Some(resp) => field(v, "response"@) matches Some(rv) && rv is Obj && field(rv, "body"@)
            == Some(resp.body@) && resp.status_code == status_code_of(rv) && resp.request_id@
            == str_or_empty(field_str(rv, "request_id"@)),
        None => !(field(v, "response"@) matches Some(JsonV::Obj(_))),
    })
    &&& (match it.error {
        Some(e) => field(v, "error"@) matches Some(ev) && ev is Obj && field_str(ev, "message"@)
            == Some(e.message@) && e.code@ == str_or_empty(field_str(ev, "code"@)),
        None => !(field(v, "error"@) matches Some(JsonV::Obj(_))),
    })
}

/// Reads one result line out of a JSON value.
pub fn parse_result_item(j: &Json) -> (r: Option<BatchResponseItem>)
    ensures
        r is Some <==> result_item_ok(j@),
        r matches Some(it) ==> result_item_matches(j@, it),
{
    let custom_id = match crate::batch::field_opt_string(j, "custom_id") {
        Some(s) => s,
        None => {
            return None;
        },
    };
    let response = match j.get("response") {
        Some(rv) => match rv {
            Json::Obj(_) => {
                let body = match rv.get("body") {
                    Some(b) => b.deep_clone(),
                    None => {
                        return None;
                    },
                };
                let status_code = match rv.get("status_code") {
                    Some(sv) => match sv {
                        Json::Num(raw) => match crate::strutil::parse_u64_digits(raw.as_str()) {
                            Some(u) => if u < 0x10000 {
                                u as u16
                            } else {
                                0
                            },
                            None => 0,
                        },
                        _ => 0,
                    },
                    None => 0,
                };
                Some(
                    BatchItemResponse {
                        status_code,
                        request_id: crate::batch::field_string_or_empty(rv, "request_id"),
                        body,
                    },
                )
            },
            _ => None,
        },
        None => None,
    };
    let error = match j.get("error") {
        Some(ev) => match ev {
            Json::Obj(_) => {
                let message = match crate::batch::field_opt_string(ev, "message") {
                    Some(m) => m,
                    None => {
                        return None;
                    },
                };
                Some(
                    BatchItemError {
                        code: crate::batch::field_string_or_empty(ev, "code"),
                        message,
                    },
                )
            },
            _ => None,
        },
        None => None,
    };
    Some(BatchResponseItem { id: crate::batch::field_string_or_empty(j, "id"), custom_id, response, error })
}

/// The index just before the next newline at or after `i`.
pub open spec fn line_end(s: Seq<char>, i: int) -> int
    decreases s.len() - i,
    when 0 <= i <= s.len()
{
    if i < s.len() && s[i] != '\n' {
        line_end(s, i + 1)
    } else {
        i
    }
}

/// A line end lies within the input, at or after where it starts.
pub proof fn lemma_line_end(s: Seq<char>, i: int)
    requires
        0 <= i <= s.len(),
    ensures
        i <= line_end(s, i) <= s.len(),
    decreases s.len() - i,
{
    if i < s.len() && s[i] != '\n' {
        lemma_line_end(s, i + 1);
    }
}

/// A line without its trailing carriage return, if it has one.
pub open spec fn strip_cr(l: Seq<char>) -> Seq<char> {
    if l.len() > 0 && l.last() == '\r' {
        l.drop_last()
    } else {
        l
    }
}

/// The lines of a text, split at newlines, carriage returns stripped; a
/// trailing newline ends the last line rather than opening an empty one.
pub open spec fn lines_from(s: Seq<char>, i: int) -> Seq<Seq<char>>
    decreases s.len() - i,
    when 0 <= i <= s.len()
{
    if i >= s.len() {
        Seq::empty()
    } else {
        let e = line_end(s, i);
        let e2 = if e < i {
            i
        } else {
            e
        };
        if e2 >= s.len() {
            seq![strip_cr(s.subrange(i, e2))]
        } else {
            seq![strip_cr(s.subrange(i, e2))] + lines_from(s, e2 + 1)
        }
    }
}

/// The lines of a whole text.
pub open spec fn lines_of(s: Seq<char>) -> Seq<Seq<char>> {
    lines_from(s, 0)
}

/// One line yields one readable result.
pub open spec fn line_ok(l: Seq<char>) -> bool {
    match crate::json::parse::text_parses(l) {
        Some(jv) => result_item_ok(jv),
        None => false,
    }
}

/// Every line yields a readable result.
pub open spec fn lines_all_ok(ls: Seq<Seq<char>>) -> bool
    decreases ls.len(),
{
    if ls.len() == 0 {
        true
    } else {
        lines_all_ok(ls.drop_last()) && line_ok(ls.last())
    }
}

/// What one line's parsed result is.
pub open spec fn line_yields(l: Seq<char>, it: BatchResponseItem) -> bool {
    match crate::json::parse::text_parses(l) {
        Some(jv) => result_item_matches(jv, it),
        None => false,
    }
}

/// Element-wise readings of readable lines.
proof fn lemma_lines_all_ok_elt(ls: Seq<Seq<char>>, i: int)
    requires
        lines_all_ok(ls),
        0 <= i < ls.len(),
    ensures
        line_ok(ls[i]),
    decreases ls.len(),
{
    if i == ls.len() - 1 {
        assert(ls.last() == ls[i]);
    } else {
        lemma_lines_all_ok_elt(ls.drop_last(), i);
        assert(ls.drop_last()[i] == ls[i]);
    }
}

/// A list of readable lines is readable.
proof fn lemma_lines_all_ok_all(ls: Seq<Seq<char>>)
    requires
        forall|i: int| 0 <= i < ls.len() ==> line_ok(#[trigger] ls[i]),
    ensures
        lines_all_ok(ls),
    decreases ls.len(),
{
    if ls.len() != 0 {
        assert(forall|i: int|
            0 <= i < ls.drop_last().len() ==> #[trigger] ls.drop_last()[i] == ls[i]);
        lemma_lines_all_ok_all(ls.drop_last());
        assert(ls[ls.len() - 1] == ls.last());
    }
}

fn line_end_exec(s: &str, i: usize, n: usize) -> (r: usize)
    requires
        i <= n,
        n == s@.len(),
    ensures
        i <= r <= n,
        r as int == line_end(s@, i as int),
{
    let mut k = i;
    loop
        invariant
            i <= k <= n,
            n == s@.len(),
            line_end(s@, k as int) == line_end(s@, i as int),
        ensures
            i <= k <= n,
            k as int == line_end(s@, i as int),
        decreases n - k,
    {
        if k >= n {
            break;
        }
        if s.get_char(k) == '\n' {
            break;
        }
        k = k + 1;
    }
    k
}

/// Parses a job's output blob: one result per line, every line must be
/// readable.
///
/// On failure the error holds the index of the first unreadable line.
pub fn parse_batch_results(content: &str) -> (r: Result<Vec<BatchResponseItem>, usize>)
    ensures
        r matches Ok(items) ==> {
            let ls = lines_of(content@);
            &&& items@.len() == ls.len()
            &&& (forall|i: int| 0 <= i < ls.len() ==> line_yields(#[trigger] ls[i], items@[i]))
        },
        r is Ok <==> lines_all_ok(lines_of(content@)),
{
    let n = content.unicode_len();
    let mut items: Vec<BatchResponseItem> = Vec::new();
    let mut p: usize = 0;
    let ghost ls = lines_of(content@);
    proof {
        assert(ls.take(0) =~= Seq::<Seq<char>>::empty());
        assert(ls == ls.take(0) + lines_from(content@, 0));
    }
    while p < n
        invariant
            p <= n,
            n == content@.len(),
            ls == lines_of(content@),
            ls == ls.take(items@.len() as int) + lines_from(content@, p as int),
            items@.len() <= ls.len(),
            p == n ==> items@.len() == ls.len(),
            forall|i: int| 0 <= i < items@.len() ==> line_yields(#[trigger] ls[i], items@[i]),
            forall|i: int| 0 <= i < items@.len() ==> line_ok(#[trigger] ls[i]),
        decreases n - p,
    {
        let ghost k = items@.len() as int;
        let e = line_end_exec(content, p, n);
        let ec: usize = if e > p && content.get_char(e - 1) == '\r' {
            e - 1
        } else {
            e
        };
        let line = content.substring_char(p, ec);
        let ghost rest = if e as int >= content@.len() {
            Seq::<Seq<char>>::empty()
        } else {
            lines_from(content@, e as int + 1)
        };
        proof {
            assert(line@ == strip_cr(content@.subrange(p as int, e as int))) by {
                let ee = e as int;
                let raw = content@.subrange(p as int, ee);
                if e > p && content@[ee - 1] == '\r' {
                    assert(raw.last() == '\r');
                    assert(raw.drop_last() =~= content@.subrange(p as int, ec as int));
                } else {
                    if raw.len() > 0 && raw.last() == '\r' {
                        assert(content@[ee - 1] == '\r');
                    }
                }
            }
            assert(lines_from(content@, p as int) == seq![line@] + rest);
            assert(ls[k] == line@ && ls.len() > k) by {
                assert((ls.take(k) + lines_from(content@, p as int))[k] == lines_from(
                    content@,
                    p as int,
                )[0]);
            }
        }
        match crate::json::parse::parse_text(line) {
            Err(_) => {
                proof {
                    assert(!line_ok(ls[k]));
                    assert_by_contradiction!(!lines_all_ok(ls), {
                        lemma_lines_all_ok_elt(ls, k);
                    });
                }
                return Err(items.len());
            },
            Ok(j) => {
                match parse_result_item(&j) {
                    None => {
                        proof {
                            assert(!line_ok(ls[k]));
                            assert_by_contradiction!(!lines_all_ok(ls), {
                                lemma_lines_all_ok_elt(ls, k);
                            });
                        }
                        return Err(items.len());
                    },
                    Some(it) => {
                        items.push(it);
                    },
                }
            },
        }
        proof {
            assert(ls.take(k + 1) =~= ls.take(k) + seq![ls[k]]);
            assert(ls == ls.take(k + 1) + rest) by {
                assert(ls.take(k) + (seq![ls[k]] + rest) =~= (ls.take(k) + seq![ls[k]]) + rest);
            }
        }
        if e >= n {
            p = n;
            proof {
                assert(lines_from(content@, n as int) =~= Seq::<Seq<char>>::empty());
                assert(ls =~= ls.take(k + 1));
            }
        } else {
            p = e + 1;
        }
    }
    proof {
        assert(lines_from(content@, n as int) =~= Seq::<Seq<char>>::empty());
        if items@.len() < ls.len() {
            assert(ls.len() == ls.take(items@.len() as int).len());
        }
        lemma_lines_all_ok_all(ls);
    }
    Ok(items)
}

/// The completed job's output blob identifier, or the exact reason there is
/// none to fetch.
pub fn batch_output_file<'a>(batch: &'a Batch) -> (r: Result<&'a String, GetBatchResultsError>)
    ensures
        batch.status != BatchStatus::Completed ==> (r matches Err(
            GetBatchResultsError::BatchNotCompleted(st),
        ) && st == batch.status),
        batch.status == BatchStatus::Completed && batch.output_file_id is None ==> (r matches Err(
            e,
        ) && e matches GetBatchResultsError::BatchNoOutputFile(id) && id@ == batch.id@),
        batch.status == BatchStatus::Completed && batch.output_file_id is Some ==> (r matches Ok(
            f,
        ) && Some(*f) == batch.output_file_id),
{
    if !(batch.status == BatchStatus::Completed) {
        return Err(GetBatchResultsError::BatchNotCompleted(batch.status));
    }
    match &batch.output_file_id {
        Some(f) => Ok(f),
        None => Err(GetBatchResultsError::BatchNoOutputFile(batch.id.clone())),
    }
}

/// One reconciled position: the answer, or exactly what went wrong there.
#[derive(Debug)]
pub enum ItemOutcome {
    /// The item succeeded; holds the first choice's message text.
    Answer(String),
    /// The provider attached a per-item error to this identifier.
    ItemFailed(BatchItemError),
    /// The item's response body was a provider-reported error.
    ApiError(OpenAiError),
    /// The identifier is missing from the results.
    NotFound,
    /// The item succeeded but offered no choices.
    NoChoices,
    /// The item carried neither a readable response nor an error.
    Unreadable,
}

/// The latest result carrying the given identifier, if any.
pub open spec fn lookup_item(items: Seq<BatchResponseItem>, id: Seq<char>) -> Option<
    BatchResponseItem,
>
    decreases items.len(),
{
    if items.len() == 0 {
        None
    } else if items.last().custom_id@ == id {
        Some(items.last())
    } else {
        lookup_item(items.drop_last(), id)
    }
}

/// What the outcome of one identifier is, given the result stream.
pub open spec fn outcome_matches(
    items: Seq<BatchResponseItem>,
    id: Seq<char>,
    o: ItemOutcome,
) -> bool {
    match lookup_item(items, id) {
        None => o is NotFound,
        Some(it) => match it.error {
            Some(e) => o matches ItemOutcome::ItemFailed(oe) && oe.code@ == e.code@ && oe.message@
                == e.message@,
            None => match it.response {
                None => o is Unreadable,
                Some(resp) => {
                    let jv = resp.body@;
                    if error_reply_of(jv) is Some {
                        o matches ItemOutcome::ApiError(e) && e.message@ == (error_reply_of(
                            jv,
                        )->0).0
                    } else if chat_response_ok(jv) {
                        let l = choices_of(jv)->0;
                        if l.len() == 0 {
                            o is NoChoices
                        } else {
                            o matches ItemOutcome::Answer(s) && choice_of(l[0]) matches Some(p)
                                && p.1 == s@
                        }
                    } else {
                        o is Unreadable
                    }
                },
            },
        },
    }
}

/// Finds the latest result with the given identifier.
fn find_item<'a>(items: &'a Vec<BatchResponseItem>, id: &str) -> (r: Option<
    &'a BatchResponseItem,
>)
    ensures
        match r {
            Some(it) => lookup_item(items@, id@) == Some(*it),
            None => lookup_item(items@, id@) is None,
        },
{
    proof {
        assert(items@.take(items@.len() as int) =~= items@);
    }
    let n = items.len();
    let mut i: usize = n;
    while i > 0
        invariant
            i <= n,
            n == items@.len(),
            lookup_item(items@, id@) == lookup_item(items@.take(i as int), id@),
        decreases i,
    {
        i = i - 1;
        proof {
            assert(items@.take(i + 1 as int).drop_last() =~= items@.take(i as int));
            assert(items@.take(i + 1 as int).last() == items@[i as int]);
        }
        if str_eq(items[i].custom_id.as_str(), id) {
            return Some(&items[i]);
        }
    }
    proof {
        assert(items@.take(0) =~= Seq::<BatchResponseItem>::empty());
    }
    None
}

/// Reconciles a result stream back onto the caller's identifier order.
///
/// The output has exactly one outcome per submitted identifier, in the
/// caller's order — present results yield their answer or their own error,
/// missing ones are reported missing — so one item's failure never disturbs
/// another's result.
pub fn reconcile(custom_ids: &Vec<String>, items: &Vec<BatchResponseItem>) -> (r: Vec<ItemOutcome>)
    ensures
        r@.len() == custom_ids@.len(),
        forall|i: int|
            0 <= i < custom_ids@.len() ==> outcome_matches(
                items@,
                (#[trigger] custom_ids@[i])@,
                r@[i],
            ),
{
    let n = custom_ids.len();
    let mut out: Vec<ItemOutcome> = Vec::new();
    let mut i: usize = 0;
    while i < n
        invariant
            i <= n,
            n == custom_ids@.len(),
            out@.len() == i,
            forall|t: int|
                0 <= t < i ==> outcome_matches(items@, (#[trigger] custom_ids@[t])@, out@[t]),
        decreases n - i,
    {
        let o: ItemOutcome = match find_item(items, custom_ids[i].as_str()) {
            None => ItemOutcome::NotFound,
            Some(it) => {
                match &it.error {
                    Some(e) => ItemOutcome::ItemFailed(
                        BatchItemError { code: e.code.clone(), message: e.message.clone() },
                    ),
                    None => match &it.response {
                        None => ItemOutcome::Unreadable,
                        Some(resp) => {
                            match crate::chat_completions::parse_chat_reply(&resp.body) {
                                Some(crate::chat_completions::ChatResponseOrError::Error(e)) => {
                                    ItemOutcome::ApiError(e)
                                },
                                Some(
                                    crate::chat_completions::ChatResponseOrError::Response(cr),
                                ) => {
                                    if cr.choices.len() == 0 {
                                        ItemOutcome::NoChoices
                                    } else {
                                        let mut cr = cr;
                                        let first = cr.choices.remove(0);
                                        ItemOutcome::Answer(first.content)
                                    }
                                },
                                None => ItemOutcome::Unreadable,
                            }
                        },
                    },
                }
            },
        };
        out.push(o);
        i = i + 1;
    }
    out
}

} // verus!
