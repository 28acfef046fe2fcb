//! The batch facility: job records, request items, and the deduplication
//! and submission planner.
//!
//! A list of logical requests is turned into one newline-delimited job
//! content blob. Each request gets a 64-bit content fingerprint computed
//! over its canonical serialization, and the whole submission gets a digest
//! that folds the distinct fingerprints together order-independently: two
//! submissions of the same set of requests, in any order, carry the same
//! digest ([`lemma_digest_permutation`]). The digest travels in the job's
//! metadata under a reserved key, and the planner reuses a listed job
//! whenever one is still live and carries the same digest.

use vstd::assert_by_contradiction;
use vstd::prelude::*;
use vstd::string::StrSliceExecFns;
use vstd::string::StringExecFns;

use crate::chat_completions::{chat_request_jv, chat_request_to_json, ChatMessage, ChatRequest,
    OpenAiError, ResponseFormat};
use crate::json::text::jv_text;
use crate::json::{obj_get, view_entries, view_list, Json, JsonV};
use crate::json::{lemma_view_entries, lemma_view_list};
use crate::strutil::{dec_chars, push_decimal, str_eq, u64_to_string};

verus! {

/// What a 64-bit XXH3 hash of the given text is; a pure function of the
/// text, fixed across processes and machines.
pub uninterp spec fn xxh3_of(s: Seq<char>) -> u64;

/// Relies on `xxhash_rust::const_xxh3::xxh3_64`: the hash depends on the
/// hashed bytes alone, with no seed, salt or per-process state. The call
/// hashes the text's UTF-8 bytes, which are a function of its characters,
/// so the name above is well-defined over the character sequence.
#[verifier::external_body]
fn xxh3_str(s: &str) -> (r: u64)
    ensures
        r == xxh3_of(s@),
{
    xxhash_rust::const_xxh3::xxh3_64(s.as_bytes())
}

/// 64-bit wrapping addition.
pub open spec fn wrap_add64(a: u64, b: u64) -> u64 {
    ((a + b) % 0x1_0000_0000_0000_0000) as u64
}

/// The digest's folding step, as a binary operator value.
pub open spec fn digest_step() -> spec_fn(u64, u64) -> u64 {
    |acc: u64, h: u64| wrap_add64(acc, h)
}

/// The submission digest of a list of fingerprints: the wrapping sum of the
/// distinct fingerprints. Folding over the set makes order-independence
/// definitional; wrapping addition is commutative, so the fold is
/// well-defined.
pub open spec fn digest_of(fps: Seq<u64>) -> u64 {
    fps.to_set().fold(0u64, digest_step())
}

/// Wrapping addition commutes, so the set fold is well-defined.
proof fn lemma_digest_step_commutative()
    ensures
        vstd::set::fold::is_fun_commutative(digest_step()),
{
    assert forall|b: u64, a1: u64, a2: u64|
        #[trigger] digest_step()(digest_step()(b, a2), a1) == digest_step()(
            digest_step()(b, a1),
            a2,
        ) by {
        let m: int = 0x1_0000_0000_0000_0000;
        vstd::arithmetic::div_mod::lemma_add_mod_noop(b + a2, a1 as int, m);
        vstd::arithmetic::div_mod::lemma_small_mod(a1 as nat, m as nat);
        vstd::arithmetic::div_mod::lemma_add_mod_noop(b + a1, a2 as int, m);
        vstd::arithmetic::div_mod::lemma_small_mod(a2 as nat, m as nat);
        vstd::arithmetic::div_mod::lemma_mod_twice(b + a2, m);
        vstd::arithmetic::div_mod::lemma_mod_twice(b + a1, m);
        assert(wrap_add64(wrap_add64(b, a2), a1) == ((b + a2 + a1) % m) as u64);
        assert(wrap_add64(wrap_add64(b, a1), a2) == ((b + a1 + a2) % m) as u64);
    }
}

/// Folds a submission's fingerprints into its digest.
///
/// Repeated fingerprints count once, so submitting the same request twice in
/// one batch cannot change the digest.
pub fn submission_digest(fps: &Vec<u64>) -> (r: u64)
    ensures
        r == digest_of(fps@),
{
    proof {
        lemma_digest_step_commutative();
        vstd::set::fold::lemma_fold_empty(0u64, digest_step());
        assert(fps@.take(0) =~= Seq::<u64>::empty());
        assert(fps@.take(0).to_set() =~= Set::<u64>::empty());
    }
    let n = fps.len();
    let mut acc: u64 = 0;
    let mut i: usize = 0;
    while i < n
        invariant
            i <= n,
            n == fps@.len(),
            acc == fps@.take(i as int).to_set().fold(0u64, digest_step()),
        decreases n - i,
    {
        let x = fps[i];
        let mut seen = false;
        let mut j: usize = 0;
        while j < i
            invariant
                j <= i <= n,
                n == fps@.len(),
                x == fps@[i as int],
                seen == exists|t: int| 0 <= t < j && fps@[t] == x,
            decreases i - j,
        {
            if fps[j] == x {
                seen = true;
            }
            j = j + 1;
        }
        proof {
            vstd::seq_lib::seq_to_set_is_finite(fps@.take(i as int));
            assert(fps@.take(i + 1 as int).drop_last() =~= fps@.take(i as int));
            assert(fps@.take(i + 1 as int).last() == fps@[i as int]);
            if seen {
                assert(fps@.take(i as int).contains(x)) by {
                    let t = choose|t: int| 0 <= t < i && fps@[t] == x;
                    assert(fps@.take(i as int)[t] == x);
                }
                assert(fps@.take(i + 1 as int).to_set() =~= fps@.take(i as int).to_set());
            } else {
                assert(!fps@.take(i as int).contains(x)) by {
                    if fps@.take(i as int).contains(x) {
                        let t = choose|t: int|
                            0 <= t < fps@.take(i as int).len() && fps@.take(i as int)[t] == x;
                        assert(fps@[t] == x);
                    }
                }
                assert(!fps@.take(i as int).to_set().contains(x));
                assert(fps@.take(i + 1 as int).to_set() =~= fps@.take(i as int).to_set().insert(
                    x,
                ));
                vstd::set::fold::lemma_fold_insert(
                    fps@.take(i as int).to_set(),
                    0u64,
                    digest_step(),
                    x,
                );
            }
        }
        if !seen {
            acc = acc.wrapping_add(x);
            proof {
                assert(digest_step()(
                    fps@.take(i as int).to_set().fold(0u64, digest_step()),
                    x,
                ) == acc);
            }
        }
        i = i + 1;
    }
    proof {
        assert(fps@.take(n as int) =~= fps@);
    }
    acc
}

/// Permutations of a request set share one digest.
///
/// If two fingerprint lists carry the same multiset of fingerprints — in
/// particular, if one is a reordering of the other — their submission
/// digests are equal, so a re-submission in a different order is recognized
/// as the same batch.
pub proof fn lemma_digest_permutation(a: Seq<u64>, b: Seq<u64>)
    requires
        a.to_multiset() == b.to_multiset(),
    ensures
        digest_of(a) == digest_of(b),
{
    broadcast use vstd::seq_lib::to_multiset_contains;

    assert forall|x: u64| a.to_set().contains(x) <==> b.to_set().contains(x) by {
        assert(a.contains(x) <==> a.to_multiset().count(x) > 0);
        assert(b.contains(x) <==> b.to_multiset().count(x) > 0);
    }
    assert(a.to_set() =~= b.to_set());
}

/// Permuted request lists share one submission digest.
///
/// If two planned submissions fingerprint prompt lists that hold the same
/// prompts — in particular, reorderings of each other — their digests are
/// equal. The fingerprint lists are as [`plan_requests`] produces them:
/// position `i` holds the fingerprint of prompt `i`.
pub proof fn lemma_plan_digest_permutation(
    model: String,
    ps1: Seq<(Vec<ChatMessage>, ResponseFormat)>,
    ps2: Seq<(Vec<ChatMessage>, ResponseFormat)>,
    fps1: Seq<u64>,
    fps2: Seq<u64>,
)
    requires
        ps1.to_multiset() == ps2.to_multiset(),
        fps1.len() == ps1.len(),
        forall|i: int|
            0 <= i < ps1.len() ==> fps1[i] == request_fingerprint(
                #[trigger] planned_request(model, ps1[i]),
            ),
        fps2.len() == ps2.len(),
        forall|i: int|
            0 <= i < ps2.len() ==> fps2[i] == request_fingerprint(
                #[trigger] planned_request(model, ps2[i]),
            ),
    ensures
        digest_of(fps1) == digest_of(fps2),
{
    broadcast use vstd::seq_lib::to_multiset_contains;

    let f = |p: (Vec<ChatMessage>, ResponseFormat)| request_fingerprint(
        planned_request(model, p),
    );
    assert(fps1 =~= ps1.map_values(f));
    assert(fps2 =~= ps2.map_values(f));
    ps1.lemma_to_set_map_commutes(f);
    ps2.lemma_to_set_map_commutes(f);
    assert forall|p: (Vec<ChatMessage>, ResponseFormat)|
        ps1.to_set().contains(p) <==> ps2.to_set().contains(p) by {
        assert(ps1.contains(p) <==> ps1.to_multiset().count(p) > 0);
        assert(ps2.contains(p) <==> ps2.to_multiset().count(p) > 0);
    }
    assert(ps1.to_set() =~= ps2.to_set());
}

/// The content fingerprint of one logical request: the hash of its
/// canonical serialization, a function of the request's messages, response
/// contract and model alone.
pub open spec fn request_fingerprint(r: ChatRequest) -> u64 {
    xxh3_of(jv_text(chat_request_jv(r)))
}

/// Requests with identical content have identical fingerprints.
///
/// The fingerprint is computed from the request's wire form, which is a
/// function of the message list, the response contract and the model, so
/// equality of those three determines the fingerprint. (The converse — that
/// differing requests collide at most with vanishing probability — is a
/// property of the hash, not provable here.)
pub proof fn lemma_fingerprint_deterministic(a: ChatRequest, b: ChatRequest)
    requires
        chat_request_jv(a) == chat_request_jv(b),
    ensures
        request_fingerprint(a) == request_fingerprint(b),
{
}

/// Computes a request's fingerprint.
pub fn fingerprint_request(r: &ChatRequest) -> (h: u64)
    ensures
        h == request_fingerprint(*r),
{
    let j = chat_request_to_json(r);
    let text = j.to_text();
    xxh3_str(text.as_str())
}

/// The stable custom identifier derived from a fingerprint.
pub open spec fn custom_id_chars(fp: u64) -> Seq<char> {
    "request-"@ + dec_chars(fp as nat)
}

/// Renders the custom identifier of a fingerprint: the reserved prefix and
/// the fingerprint in decimal.
pub fn custom_id_for(fp: u64) -> (r: String)
    ensures
        r@ == custom_id_chars(fp),
{
    let mut s = String::from_str("request-");
    push_decimal(&mut s, fp);
    s
}

/// The status of a job, as the provider reports it.
#[derive(Debug, Clone, Copy, PartialEq, Eq, Structural)]
pub enum BatchStatus {
    /// The input file is being validated.
    Validating,
    /// The input file failed validation or the job failed while running.
    Failed,
    /// The job is running.
    InProgress,
    /// The job finished and the results are being prepared.
    Finalizing,
    /// The job finished and the results are ready.
    Completed,
    /// The job could not finish inside the completion window.
    Expired,
    /// The job is being cancelled.
    Cancelling,
    /// The job was cancelled.
    Cancelled,
}

/// The request counts of a job.
#[derive(Debug, Clone, Copy, PartialEq, Eq, Structural)]
pub struct BatchRequestCounts {
    /// Requests in the job.
    pub total: u32,
    /// Requests completed so far.
    pub completed: u32,
    /// Requests failed so far.
    pub failed: u32,
}

/// A job record, as the provider reports it. The provider owns it: this
/// library creates jobs and then only observes them.
///
/// Parsing is lenient about fields the library does not act on: string
/// fields other than `id` default to empty, `created_at` defaults to zero,
/// and the counts default to zero, when absent or ill-typed.
#[derive(Debug)]
pub struct Batch {
    /// The job's identifier.
    pub id: String,
    /// The object tag, `batch`.
    pub object: String,
    /// The endpoint the job is for.
    pub endpoint: String,
    /// The error report attached to the job, if any.
    pub errors: Option<Json>,
    /// The uploaded content blob's identifier.
    pub input_file_id: String,
    /// The promised completion window.
    pub completion_window: String,
    /// Where the job stands.
    pub status: BatchStatus,
    /// The result blob's identifier, once there is one.
    pub output_file_id: Option<String>,
    /// The error blob's identifier, if there is one.
    pub error_file_id: Option<String>,
    /// When the job was created, in seconds.
    pub created_at: u64,
    /// How many requests the job holds and how far they are.
    pub request_counts: BatchRequestCounts,
    /// The job's metadata map; this library stores the submission digest
    /// here under the reserved key `request_hash`.
    pub metadata: Option<Vec<(String, String)>>,
}

/// A page of listed jobs.
#[derive(Debug)]
pub struct BatchList {
    /// The page's jobs.
    pub data: Vec<Batch>,
    /// The object tag, `list`.
    pub object: String,
    /// Whether more pages follow.
    pub has_more: bool,
}

/// One request line of a job's content blob.
#[derive(Debug)]
pub struct BatchRequestItem {
    /// The caller-chosen identifier this line answers to.
    pub custom_id: String,
    /// The HTTP method of the wrapped call.
    pub method: String,
    /// The path of the wrapped call.
    pub url: String,
    /// The body of the wrapped call.
    pub body: Json,
}

/// One result line of a job's output blob.
#[derive(Debug)]
pub struct BatchResponseItem {
    /// The provider's identifier for this result.
    pub id: String,
    /// The custom identifier given on submission.
    pub custom_id: String,
    /// The wrapped call's response, when it produced one.
    pub response: Option<BatchItemResponse>,
    /// The per-item error, when the item failed.
    pub error: Option<BatchItemError>,
}

/// The response carried by one result line.
#[derive(Debug)]
pub struct BatchItemResponse {
    /// The HTTP status of the wrapped call.
    pub status_code: u16,
    /// The provider's request identifier.
    pub request_id: String,
    /// The response body.
    pub body: Json,
}

/// The error carried by one result line.
#[derive(Debug)]
pub struct BatchItemError {
    /// The provider's error code, or empty.
    pub code: String,
    /// The provider's error message.
    pub message: String,
}

/// The status a JSON value names, if any.
pub open spec fn status_of(v: JsonV) -> Option<BatchStatus> {
    if v == JsonV::Str("validating"@) {
        Some(BatchStatus::Validating)
    } else if v == JsonV::Str("failed"@) {
        Some(BatchStatus::Failed)
    } else if v == JsonV::Str("in_progress"@) {
        Some(BatchStatus::InProgress)
    } else if v == JsonV::Str("finalizing"@) {
        Some(BatchStatus::Finalizing)
    } else if v == JsonV::Str("completed"@) {
        Some(BatchStatus::Completed)
    } else if v == JsonV::Str("expired"@) {
        Some(BatchStatus::Expired)
    } else if v == JsonV::Str("cancelling"@) {
        Some(BatchStatus::Cancelling)
    } else if v == JsonV::Str("cancelled"@) {
        Some(BatchStatus::Cancelled)
    } else {
        None
    }
}

/// The member under `key` of an object value.
pub open spec fn field(j: JsonV, key: Seq<char>) -> Option<JsonV> {
    match j {
        JsonV::Obj(e) => obj_get(e, key),
        _ => None,
    }
}

/// The string member under `key`, when present as a string.
pub open spec fn field_str(j: JsonV, key: Seq<char>) -> Option<Seq<char>> {
    match field(j, key) {
        Some(JsonV::Str(s)) => Some(s),
        _ => None,
    }
}

/// A possibly missing string, defaulted to empty.
pub open spec fn str_or_empty(o: Option<Seq<char>>) -> Seq<char> {
    match o {
        Some(s) => s,
        None => Seq::empty(),
    }
}

/// The pairs of a string-to-string map value, if it is one.
pub open spec fn str_map_of(e: Seq<(Seq<char>, JsonV)>) -> Option<Seq<(Seq<char>, Seq<char>)>>
    decreases e.len(),
{
    if e.len() == 0 {
        Some(Seq::empty())
    } else {
        match (str_map_of(e.drop_last()), e.last().1) {
            (Some(rest), JsonV::Str(s)) => Some(rest.push((e.last().0, s))),
            _ => None,
        }
    }
}

/// The views of a list of string pairs.
pub open spec fn pairs_view(l: Seq<(String, String)>) -> Seq<(Seq<char>, Seq<char>)>
    decreases l.len(),
{
    if l.len() == 0 {
        Seq::empty()
    } else {
        pairs_view(l.drop_last()).push((l.last().0@, l.last().1@))
    }
}

/// The latest value under a key in a string map.
pub open spec fn meta_get(pairs: Seq<(Seq<char>, Seq<char>)>, key: Seq<char>) -> Option<Seq<char>>
    decreases pairs.len(),
{
    if pairs.len() == 0 {
        None
    } else if pairs.last().0 == key {
        Some(pairs.last().1)
    } else {
        meta_get(pairs.drop_last(), key)
    }
}

/// The three counts of a `request_counts` object.
pub open spec fn counts_of(v: JsonV) -> Option<(u32, u32, u32)> {
    match (field(v, "total"@), field(v, "completed"@), field(v, "failed"@)) {
        (Some(t), Some(c), Some(f)) => match (
            crate::chat_completions::u32_of(t),
            crate::chat_completions::u32_of(c),
            crate::chat_completions::u32_of(f),
        ) {
            (Some(tv), Some(cv), Some(fv)) => Some((tv, cv, fv)),
            _ => None,
        },
        _ => None,
    }
}

/// A readable job record: an `id`, a valid `status`, readable counts and
/// metadata when present.
pub open spec fn batch_shape_ok(j: JsonV) -> bool {
    &&& field_str(j, "id"@) is Some
    &&& field(j, "status"@) is Some
    &&& status_of(field(j, "status"@)->0) is Some
    &&& (match field(j, "request_counts"@) {
        Some(v) => counts_of(v) is Some,
        None => true,
    })
    &&& (match field(j, "metadata"@) {
        Some(JsonV::Obj(me)) => str_map_of(me) is Some,
        Some(_) => false,
        None => true,
    })
}

/// What a parsed job record's fields are, given its JSON form.
pub open spec fn batch_matches(j: JsonV, b: Batch) -> bool {
    &&& field_str(j, "id"@) == Some(b.id@)
    &&& b.object@ == str_or_empty(field_str(j, "object"@))
    &&& b.endpoint@ == str_or_empty(field_str(j, "endpoint"@))
    &&& b.input_file_id@ == str_or_empty(field_str(j, "input_file_id"@))
    &&& b.completion_window@ == str_or_empty(field_str(j, "completion_window"@))
    &&& Some(b.status) == status_of(field(j, "status"@)->0)
    &&& (match b.output_file_id {
        Some(s) => field_str(j, "output_file_id"@) == Some(s@),
        None => field_str(j, "output_file_id"@) is None,
    })
    &&& (match b.error_file_id {
        Some(s) => field_str(j, "error_file_id"@) == Some(s@),
        None => field_str(j, "error_file_id"@) is None,
    })
    &&& (match b.errors {
        Some(e) => field(j, "errors"@) == Some(e@) && e@ != JsonV::Null,
        None => field(j, "errors"@) is None || field(j, "errors"@) == Some(JsonV::Null),
    })
    &&& b.created_at as nat == (match field(j, "created_at"@) {
        Some(JsonV::Num(raw)) => if crate::strutil::all_digits(raw) && crate::strutil::digits_val(
            raw,
        ) < 0x1_0000_0000_0000_0000 {
            crate::strutil::digits_val(raw)
        } else {
            0
        },
        _ => 0,
    })
    &&& (b.request_counts.total, b.request_counts.completed, b.request_counts.failed) == (
    match field(j, "request_counts"@) {
        Some(v) => counts_of(v)->0,
        None => (0u32, 0u32, 0u32),
    })
    &&& (match b.metadata {
        Some(m) => field(j, "metadata"@) matches Some(JsonV::Obj(me)) && str_map_of(me) == Some(
            pairs_view(m@),
        ),
        None => field(j, "metadata"@) is None,
    })
}

/// The views of a pair list, element-wise.
pub proof fn lemma_pairs_view(l: Seq<(String, String)>)
    ensures
        pairs_view(l).len() == l.len(),
        forall|i: int|
            0 <= i < l.len() ==> #[trigger] pairs_view(l)[i] == (l[i].0@, l[i].1@),
    decreases l.len(),
{
    if l.len() != 0 {
        lemma_pairs_view(l.drop_last());
        assert(pairs_view(l) == pairs_view(l.drop_last()).push((l.last().0@, l.last().1@)));
        assert forall|i: int|
            0 <= i < l.len() implies #[trigger] pairs_view(l)[i] == (l[i].0@, l[i].1@) by {
            if i < l.len() - 1 {
                assert(pairs_view(l)[i] == pairs_view(l.drop_last())[i]);
                assert(l.drop_last()[i] == l[i]);
            }
        }
    }
}

fn parse_status(v: &Json) -> (r: Option<BatchStatus>)
    ensures
        r == status_of(v@),
{
    match v {
        Json::Str(s) => {
            if str_eq(s.as_str(), "validating") {
                Some(BatchStatus::Validating)
            } else if str_eq(s.as_str(), "failed") {
                Some(BatchStatus::Failed)
            } else if str_eq(s.as_str(), "in_progress") {
                Some(BatchStatus::InProgress)
            } else if str_eq(s.as_str(), "finalizing") {
                Some(BatchStatus::Finalizing)
            } else if str_eq(s.as_str(), "completed") {
                Some(BatchStatus::Completed)
            } else if str_eq(s.as_str(), "expired") {
                Some(BatchStatus::Expired)
            } else if str_eq(s.as_str(), "cancelling") {
                Some(BatchStatus::Cancelling)
            } else if str_eq(s.as_str(), "cancelled") {
                Some(BatchStatus::Cancelled)
            } else {
                None
            }
        },
        _ => None,
    }
}

pub fn field_string_or_empty(j: &Json, key: &str) -> (r: String)
    ensures
        r@ == str_or_empty(field_str(j@, key@)),
{
    match j.get(key) {
        Some(v) => match v {
            Json::Str(s) => s.clone(),
            _ => String::new(),
        },
        None => String::new(),
    }
}

pub fn field_opt_string(j: &Json, key: &str) -> (r: Option<String>)
    ensures
        match r {
            Some(s) => field_str(j@, key@) == Some(s@),
            None => field_str(j@, key@) is None,
        },
{
    match j.get(key) {
        Some(v) => match v {
            Json::Str(s) => Some(s.clone()),
            _ => None,
        },
        None => None,
    }
}

pub fn field_u64_or_zero(j: &Json, key: &str) -> (r: u64)
    ensures
        r as nat == (match field(j@, key@) {
            Some(JsonV::Num(raw)) => if crate::strutil::all_digits(raw)
                && crate::strutil::digits_val(raw) < 0x1_0000_0000_0000_0000 {
                crate::strutil::digits_val(raw)
            } else {
                0
            },
            _ => 0,
        }),
{
    match j.get(key) {
        Some(v) => match v {
            Json::Num(raw) => match crate::strutil::parse_u64_digits(raw.as_str()) {
                Some(u) => u,
                None => 0,
            },
            _ => 0,
        },
        None => 0,
    }
}

fn parse_counts(v: &Json) -> (r: Option<BatchRequestCounts>)
    ensures
        r is Some <==> counts_of(v@) is Some,
        r matches Some(c) ==> counts_of(v@) == Some((c.total, c.completed, c.failed)),
{
    let t = match v.get("total") {
        Some(x) => crate::chat_completions::json_u32(x),
        None => {
            return None;
        },
    };
    let c = match v.get("completed") {
        Some(x) => crate::chat_completions::json_u32(x),
        None => {
            return None;
        },
    };
    let f = match v.get("failed") {
        Some(x) => crate::chat_completions::json_u32(x),
        None => {
            return None;
        },
    };
    match (t, c, f) {
        (Some(tv), Some(cv), Some(fv)) => Some(
            BatchRequestCounts { total: tv, completed: cv, failed: fv },
        ),
        _ => None,
    }
}

fn parse_metadata(v: &Json) -> (r: Option<Vec<(String, String)>>)
    ensures
        match v@ {
            JsonV::Obj(me) => {
                &&& (r is Some <==> str_map_of(me) is Some)
                &&& (r matches Some(m) ==> str_map_of(me) == Some(pairs_view(m@)))
            },
            _ => r is None,
        },
{
    let entries = match v {
        Json::Obj(entries) => entries,
        _ => {
            return None;
        },
    };
    proof {
        lemma_view_entries(entries@);
        assert(view_entries(entries@).take(0) =~= Seq::<(Seq<char>, JsonV)>::empty());
        assert(str_map_of(view_entries(entries@).take(0)) == Some(
            Seq::<(Seq<char>, Seq<char>)>::empty(),
        ));
    }
    let n = entries.len();
    let mut out: Vec<(String, String)> = Vec::new();
    let mut i: usize = 0;
    while i < n
        invariant
            i <= n,
            n == entries@.len(),
            v@ == JsonV::Obj(view_entries(entries@)),
            view_entries(entries@).len() == n,
            forall|t: int|
                0 <= t < n ==> #[trigger] view_entries(entries@)[t] == (
                    entries@[t].0@,
                    entries@[t].1@,
                ),
            str_map_of(view_entries(entries@).take(i as int)) == Some(pairs_view(out@)),
        decreases n - i,
    {
        let ghost ev = view_entries(entries@);
        proof {
            assert(ev.take(i + 1 as int).drop_last() =~= ev.take(i as int));
            assert(ev.take(i + 1 as int).last() == ev[i as int]);
        }
        match &entries[i].1 {
            Json::Str(s) => {
                let ghost out0 = out@;
                out.push((entries[i].0.clone(), s.clone()));
                proof {
                    assert(out@.drop_last() =~= out0);
                    assert(pairs_view(out@) == pairs_view(out0).push(
                        (entries@[i as int].0@, s@),
                    ));
                }
            },
            _ => {
                proof {
                    lemma_str_map_prefix_none(ev, i as int);
                }
                return None;
            },
        }
        i = i + 1;
    }
    proof {
        assert(view_entries(entries@).take(n as int) =~= view_entries(entries@));
    }
    Some(out)
}

/// A non-string value anywhere makes the whole map unreadable.
proof fn lemma_str_map_prefix_none(e: Seq<(Seq<char>, JsonV)>, i: int)
    requires
        0 <= i < e.len(),
        !(e[i].1 is Str),
    ensures
        str_map_of(e) is None,
    decreases e.len(),
{
    if i == e.len() - 1 {
        assert(e.last() == e[i]);
    } else {
        lemma_str_map_prefix_none(e.drop_last(), i);
    }
}

/// Reads a job record out of a JSON value.
pub fn parse_batch(j: &Json) -> (r: Option<Batch>)
    ensures
        r is Some <==> batch_shape_ok(j@),
        r matches Some(b) ==> batch_matches(j@, b),
{
    let id = match field_opt_string(j, "id") {
        Some(s) => s,
        None => {
            return None;
        },
    };
    let status = match j.get("status") {
        Some(sv) => match parse_status(sv) {
            Some(st) => st,
            None => {
                return None;
            },
        },
        None => {
            return None;
        },
    };
    let request_counts = match j.get("request_counts") {
        Some(cv) => match parse_counts(cv) {
            Some(c) => c,
            None => {
                return None;
            },
        },
        None => BatchRequestCounts { total: 0, completed: 0, failed: 0 },
    };
    let metadata = match j.get("metadata") {
        Some(mv) => match parse_metadata(mv) {
            Some(m) => Some(m),
            None => {
                return None;
            },
        },
        None => None,
    };
    let errors = match j.get("errors") {
        Some(ev) => match ev {
            Json::Null => None,
            _ => Some(ev.deep_clone()),
        },
        None => None,
    };
    Some(
        Batch {
            id,
            object: field_string_or_empty(j, "object"),
            endpoint: field_string_or_empty(j, "endpoint"),
            errors,
            input_file_id: field_string_or_empty(j, "input_file_id"),
            completion_window: field_string_or_empty(j, "completion_window"),
            status,
            output_file_id: field_opt_string(j, "output_file_id"),
            error_file_id: field_opt_string(j, "error_file_id"),
            created_at: field_u64_or_zero(j, "created_at"),
            request_counts,
            metadata,
        },
    )
}

/// The wire form of one request line.
pub open spec fn item_jv(it: BatchRequestItem) -> JsonV {
    JsonV::Obj(
        seq![
            ("custom_id"@, JsonV::Str(it.custom_id@)),
            ("method"@, JsonV::Str(it.method@)),
            ("url"@, JsonV::Str(it.url@)),
            ("body"@, it.body@),
        ],
    )
}

impl BatchRequestItem {
    /// A request line for the chat-completions endpoint; its body is the
    /// request's wire form.
    pub fn new_chat(custom_id: String, chat_request: ChatRequest) -> (r: BatchRequestItem)
        ensures
            r.custom_id == custom_id,
            r.method@ == "POST"@,
            r.url@ == "/v1/chat/completions"@,
            r.body@ == chat_request_jv(chat_request),
    {
        let body = chat_request_to_json(&chat_request);
        BatchRequestItem {
            custom_id,
            method: String::from_str("POST"),
            url: String::from_str("/v1/chat/completions"),
            body,
        }
    }

    /// A request line for the embeddings endpoint.
    pub fn new_embedding(custom_id: String, model: String, input: Vec<String>) -> (r:
        BatchRequestItem)
        ensures
            r.custom_id == custom_id,
            r.method@ == "POST"@,
            r.url@ == "/v1/embeddings"@,
            r.body@ == JsonV::Obj(
                seq![
                    ("model"@, JsonV::Str(model@)),
                    ("input"@, JsonV::Arr(crate::schema::strs_of(crate::schema::strs_view(input@)))),
                ],
            ),
    {
        let ghost mv = model@;
        let arr = crate::schema::strs_arr_exec(input);
        let ghost arrv = arr@;
        let mut e: Vec<(String, Json)> = Vec::new();
        e.push((String::from_str("model"), Json::Str(model)));
        e.push((String::from_str("input"), arr));
        proof {
            lemma_view_entries(e@);
            assert(view_entries(e@) =~= seq![("model"@, JsonV::Str(mv)), ("input"@, arrv)]);
        }
        BatchRequestItem {
            custom_id,
            method: String::from_str("POST"),
            url: String::from_str("/v1/embeddings"),
            body: Json::Obj(e),
        }
    }

    /// A request line for the completions endpoint.
    pub fn new_completion(custom_id: String, model: String, prompt: String) -> (r:
        BatchRequestItem)
        ensures
            r.custom_id == custom_id,
            r.method@ == "POST"@,
            r.url@ == "/v1/completions"@,
            r.body@ == JsonV::Obj(
                seq![
                    ("model"@, JsonV::Str(model@)),
                    ("prompt"@, JsonV::Str(prompt@)),
                    ("max_tokens"@, JsonV::Num(dec_chars(1000))),
                ],
            ),
    {
        BatchRequestItem {
            custom_id,
            method: String::from_str("POST"),
            url: String::from_str("/v1/completions"),
            body: plain_prompt_body(model, prompt),
        }
    }

    /// A request line for the responses endpoint.
    pub fn new_response(custom_id: String, model: String, prompt: String) -> (r: BatchRequestItem)
        ensures
            r.custom_id == custom_id,
            r.method@ == "POST"@,
            r.url@ == "/v1/responses"@,
            r.body@ == JsonV::Obj(
                seq![
                    ("model"@, JsonV::Str(model@)),
                    ("prompt"@, JsonV::Str(prompt@)),
                    ("max_tokens"@, JsonV::Num(dec_chars(1000))),
                ],
            ),
    {
        BatchRequestItem {
            custom_id,
            method: String::from_str("POST"),
            url: String::from_str("/v1/responses"),
            body: plain_prompt_body(model, prompt),
        }
    }

    /// The line's JSON tree.
    pub fn to_json(&self) -> (r: Json)
        ensures
            r@ == item_jv(*self),
    {
        let mut e: Vec<(String, Json)> = Vec::new();
        e.push((String::from_str("custom_id"), Json::Str(self.custom_id.clone())));
        e.push((String::from_str("method"), Json::Str(self.method.clone())));
        e.push((String::from_str("url"), Json::Str(self.url.clone())));
        e.push((String::from_str("body"), self.body.deep_clone()));
        proof {
            lemma_view_entries(e@);
            assert(view_entries(e@) =~= seq![
                ("custom_id"@, JsonV::Str(self.custom_id@)),
                ("method"@, JsonV::Str(self.method@)),
                ("url"@, JsonV::Str(self.url@)),
                ("body"@, self.body@),
            ]);
        }
        Json::Obj(e)
    }
}

fn plain_prompt_body(model: String, prompt: String) -> (r: Json)
    ensures
        r@ == JsonV::Obj(
            seq![
                ("model"@, JsonV::Str(model@)),
                ("prompt"@, JsonV::Str(prompt@)),
                ("max_tokens"@, JsonV::Num(dec_chars(1000))),
            ],
        ),
{
    let ghost mv = model@;
    let ghost pv = prompt@;
    let mut e: Vec<(String, Json)> = Vec::new();
    e.push((String::from_str("model"), Json::Str(model)));
    e.push((String::from_str("prompt"), Json::Str(prompt)));
    e.push((String::from_str("max_tokens"), Json::num_u64(1000)));
    proof {
        lemma_view_entries(e@);
        assert(view_entries(e@) =~= seq![
            ("model"@, JsonV::Str(mv)),
            ("prompt"@, JsonV::Str(pv)),
            ("max_tokens"@, JsonV::Num(dec_chars(1000))),
        ]);
    }
    Json::Obj(e)
}

/// The job content of a list of request lines: each line's text, each
/// followed by a newline.
pub open spec fn content_chars(l: Seq<BatchRequestItem>) -> Seq<char>
    decreases l.len(),
{
    if l.len() == 0 {
        Seq::empty()
    } else {
        content_chars(l.drop_last()) + jv_text(item_jv(l.last())) + seq!['\n']
    }
}

/// Serializes request lines into one newline-delimited job content blob.
pub fn create_batch_content(requests: &Vec<BatchRequestItem>) -> (r: String)
    ensures
        r@ == content_chars(requests@),
{
    let n = requests.len();
    let mut out = String::new();
    proof {
        assert(requests@.take(0) =~= Seq::<BatchRequestItem>::empty());
        assert(out@ =~= content_chars(requests@.take(0)));
    }
    let mut i: usize = 0;
    while i < n
        invariant
            i <= n,
            n == requests@.len(),
            out@ == content_chars(requests@.take(i as int)),
        decreases n - i,
    {
        let j = requests[i].to_json();
        let line = j.to_text();
        out.append(line.as_str());
        crate::strutil::string_push(&mut out, '\n');
        proof {
            assert(requests@.take(i + 1 as int).drop_last() =~= requests@.take(i as int));
            assert(requests@.take(i + 1 as int).last() == requests@[i as int]);
            assert(out@ =~= content_chars(requests@.take(i + 1 as int)));
        }
        i = i + 1;
    }
    proof {
        assert(requests@.take(n as int) =~= requests@);
    }
    out
}

/// Errors of uploading a job's content blob.
#[derive(Debug)]
pub enum UploadBatchFileError {
    /// The file store failed.
    FileUploadError(crate::files::FilesError),
}

/// Errors of creating a job.
#[derive(Debug)]
pub enum CreateBatchError {
    /// The transport failed; holds its report.
    RequestError(String),
    /// The provider's reply could not be read; holds a report and the reply.
    JsonParseError(String, String),
    /// The provider reported an error.
    OpenAiError(OpenAiError),
}

/// Errors of fetching a job's status.
#[derive(Debug)]
pub enum GetBatchStatusError {
    /// The transport failed; holds its report.
    RequestError(String),
    /// The provider's reply could not be read; holds a report and the reply.
    JsonParseError(String, String),
    /// The provider reported an error.
    OpenAiError(OpenAiError),
}

/// Errors of waiting for a job to reach a terminal status.
#[derive(Debug)]
pub enum WaitForBatchError {
    /// Fetching the status failed.
    GetBatchStatusError(GetBatchStatusError),
    /// The job failed; holds its identifier and the provider's error report.
    BatchFailed {
        /// The job's identifier.
        id: String,
        /// The provider's error report, serialized.
        error: String,
    },
    /// The job was cancelled or is being cancelled; holds its identifier.
    BatchCancelled(String),
    /// The local wait ceiling was reached; holds the job's identifier.
    BatchTimeout(String),
    /// The job expired; holds its identifier.
    BatchExpired(String),
}

/// Errors of collecting a job's results.
#[derive(Debug)]
pub enum GetBatchResultsError {
    /// The job is not completed; holds the status it had.
    BatchNotCompleted(BatchStatus),
    /// The job reports no output file; holds the job's identifier.
    BatchNoOutputFile(String),
    /// Downloading the output failed.
    DownloadFileError(crate::files::FilesError),
    /// A result line could not be read; holds a report and the content.
    JsonParseError(String, String),
}

/// Errors of cancelling a job.
#[derive(Debug)]
pub enum CancelBatchError {
    /// The transport failed; holds its report.
    RequestError(String),
    /// The provider's reply could not be read; holds a report and the reply.
    JsonParseError(String, String),
    /// The provider reported an error.
    OpenAiError(OpenAiError),
}

/// Errors of listing jobs.
#[derive(Debug)]
pub enum ListBatchesError {
    /// The transport failed; holds its report.
    RequestError(String),
    /// The provider's reply could not be read; holds a report and the reply.
    JsonParseError(String, String),
    /// The provider reported an error.
    OpenAiError(OpenAiError),
}

/// A provider reply to a job request: the job, a provider-reported error,
/// or something unreadable.
#[derive(Debug)]
pub enum BatchReply {
    /// The reply described a job.
    Job(Batch),
    /// The provider reported an error.
    Api(OpenAiError),
    /// The reply could not be read either way.
    Unreadable,
}

/// Reads a provider reply: a job record first, a reported error second.
pub fn parse_batch_reply(text: &str) -> (r: BatchReply)
    ensures
        r matches BatchReply::Job(b) ==> crate::json::parse::text_parses(text@) matches Some(jv)
            && batch_shape_ok(jv) && batch_matches(jv, b),
        r matches BatchReply::Api(e) ==> crate::json::parse::text_parses(text@) matches Some(jv)
            && !batch_shape_ok(jv) && (crate::chat_completions::error_reply_of(jv) matches Some(p)
            && e.message@ == p.0),
        r is Unreadable <==> (match crate::json::parse::text_parses(text@) {
            Some(jv) => !batch_shape_ok(jv) && crate::chat_completions::error_reply_of(
                jv,
            ) is None,
            None => true,
        }),
{
    match crate::json::parse::parse_text(text) {
        Err(_) => BatchReply::Unreadable,
        Ok(j) => {
            match parse_batch(&j) {
                Some(b) => BatchReply::Job(b),
                None => match crate::chat_completions::parse_error_reply(&j) {
                    Some(e) => BatchReply::Api(e),
                    None => BatchReply::Unreadable,
                },
            }
        },
    }
}

/// Every element is a readable job record.
pub open spec fn batches_ok(l: Seq<JsonV>) -> bool
    decreases l.len(),
{
    if l.len() == 0 {
        true
    } else {
        batches_ok(l.drop_last()) && batch_shape_ok(l.last())
    }
}

/// A readable job listing: a `data` array of readable records and a boolean
/// `has_more`.
pub open spec fn batch_list_ok(j: JsonV) -> bool {
    &&& (match field(j, "data"@) {
        Some(JsonV::Arr(l)) => batches_ok(l),
        _ => false,
    })
    &&& field(j, "has_more"@) matches Some(JsonV::Bool(_))
}

/// Element-wise readings of a readable job list.
proof fn lemma_batches_ok_elt(l: Seq<JsonV>, i: int)
    requires
        batches_ok(l),
        0 <= i < l.len(),
    ensures
        batch_shape_ok(l[i]),
    decreases l.len(),
{
    if i == l.len() - 1 {
        assert(l.last() == l[i]);
    } else {
        lemma_batches_ok_elt(l.drop_last(), i);
        assert(l.drop_last()[i] == l[i]);
    }
}

/// A list of readable records is a readable list.
proof fn lemma_batches_ok_all(l: Seq<JsonV>)
    requires
        forall|i: int| 0 <= i < l.len() ==> batch_shape_ok(#[trigger] l[i]),
    ensures
        batches_ok(l),
    decreases l.len(),
{
    if l.len() != 0 {
        assert(forall|i: int|
            0 <= i < l.drop_last().len() ==> #[trigger] l.drop_last()[i] == l[i]);
        lemma_batches_ok_all(l.drop_last());
        assert(l[l.len() - 1] == l.last());
    }
}

/// What a parsed page's fields are, given its JSON form.
pub open spec fn batch_list_matches(j: JsonV, bl: BatchList) -> bool {
    let l = (match field(j, "data"@) {
        Some(JsonV::Arr(l)) => l,
        _ => Seq::empty(),
    });
    &&& bl.data@.len() == l.len()
    &&& (forall|i: int| 0 <= i < l.len() ==> batch_matches(#[trigger] l[i], bl.data@[i]))
    &&& field(j, "has_more"@) == Some(JsonV::Bool(bl.has_more))
    &&& bl.object@ == str_or_empty(field_str(j, "object"@))
}

/// Reads a page of listed jobs out of a JSON value.
pub fn parse_batch_list(j: &Json) -> (r: Option<BatchList>)
    ensures
        r is Some <==> batch_list_ok(j@),
        r matches Some(bl) ==> batch_list_matches(j@, bl),
{
    let arr = match j.get("data") {
        Some(v) => v,
        None => {
            return None;
        },
    };
    let items = match arr {
        Json::Arr(items) => items,
        _ => {
            return None;
        },
    };
    let has_more = match j.get("has_more") {
        Some(v) => match v {
            Json::Bool(b) => *b,
            _ => {
                return None;
            },
        },
        None => {
            return None;
        },
    };
    proof {
        lemma_view_list(items@);
    }
    let ghost l = view_list(items@);
    let n = items.len();
    let mut data: Vec<Batch> = Vec::new();
    let mut i: usize = 0;
    while i < n
        invariant
            i <= n,
            n == items@.len(),
            l == view_list(items@),
            field(j@, "data"@) == Some(JsonV::Arr(l)),
            l.len() == n,
            forall|t: int| 0 <= t < n ==> #[trigger] l[t] == items@[t]@,
            data@.len() == i,
            forall|t: int| 0 <= t < i ==> batch_matches(#[trigger] l[t], data@[t]),
            forall|t: int| 0 <= t < i ==> batch_shape_ok(#[trigger] l[t]),
        decreases n - i,
    {
        match parse_batch(&items[i]) {
            Some(b) => {
                data.push(b);
            },
            None => {
                proof {
                    assert(!batch_shape_ok(l[i as int]));
                    assert_by_contradiction!(!batch_list_ok(j@), {
                        lemma_batches_ok_elt(l, i as int);
                    });
                }
                return None;
            },
        }
        i = i + 1;
    }
    proof {
        lemma_batches_ok_all(l);
    }
    Some(BatchList { data, has_more, object: field_string_or_empty(j, "object") })
}

/// A provider reply to a listing request.
#[derive(Debug)]
pub enum BatchListReply {
    /// The reply was a page of jobs.
    Page(BatchList),
    /// The provider reported an error.
    Api(OpenAiError),
    /// The reply could not be read either way.
    Unreadable,
}

/// Reads a provider reply to a listing request: a page first, a reported
/// error second.
pub fn parse_batch_list_reply(text: &str) -> (r: BatchListReply)
    ensures
        r matches BatchListReply::Page(bl) ==> (crate::json::parse::text_parses(
            text@,
        ) matches Some(jv) && batch_list_ok(jv) && batch_list_matches(jv, bl)),
        r matches BatchListReply::Api(e) ==> crate::json::parse::text_parses(text@) matches Some(
            jv,
        ) && !batch_list_ok(jv) && (crate::chat_completions::error_reply_of(jv) matches Some(p)
            && e.message@ == p.0),
        r is Unreadable <==> (match crate::json::parse::text_parses(text@) {
            Some(jv) => !batch_list_ok(jv) && crate::chat_completions::error_reply_of(jv) is None,
            None => true,
        }),
{
    match crate::json::parse::parse_text(text) {
        Err(_) => BatchListReply::Unreadable,
        Ok(j) => {
            match parse_batch_list(&j) {
                Some(bl) => BatchListReply::Page(bl),
                None => match crate::chat_completions::parse_error_reply(&j) {
                    Some(e) => BatchListReply::Api(e),
                    None => BatchListReply::Unreadable,
                },
            }
        },
    }
}

/// Whether a listed job may stand in for a fresh submission with the given
/// digest: it is still live — validating, running or completed — and its
/// metadata carries the digest under the reserved key.
pub open spec fn batch_reusable(b: Batch, digest: Seq<char>) -> bool {
    &&& (b.status == BatchStatus::Completed || b.status == BatchStatus::InProgress || b.status
        == BatchStatus::Validating)
    &&& (match b.metadata {
        Some(m) => meta_get(pairs_view(m@), "request_hash"@) == Some(digest),
        None => false,
    })
}

/// Looks up the latest value under a key in a metadata map.
pub fn meta_lookup<'a>(m: &'a Vec<(String, String)>, key: &str) -> (r: Option<&'a String>)
    ensures
        match r {
            Some(v) => meta_get(pairs_view(m@), key@) == Some(v@),
            None => meta_get(pairs_view(m@), key@) is None,
        },
{
    proof {
        lemma_pairs_view(m@);
        assert(pairs_view(m@).take(m@.len() as int) =~= pairs_view(m@));
    }
    let n = m.len();
    let mut i: usize = n;
    while i > 0
        invariant
            i <= n,
            n == m@.len(),
            pairs_view(m@).len() == n,
            forall|t: int| 0 <= t < n ==> #[trigger] pairs_view(m@)[t] == (m@[t].0@, m@[t].1@),
            meta_get(pairs_view(m@), key@) == meta_get(pairs_view(m@).take(i as int), key@),
        decreases i,
    {
        i = i - 1;
        proof {
            assert(pairs_view(m@).take(i + 1 as int).drop_last() =~= pairs_view(m@).take(i as int));
            assert(pairs_view(m@).take(i + 1 as int).last() == pairs_view(m@)[i as int]);
        }
        if str_eq(m[i].0.as_str(), key) {
            return Some(&m[i].1);
        }
    }
    proof {
        assert(pairs_view(m@).take(0) =~= Seq::<(Seq<char>, Seq<char>)>::empty());
    }
    None
}

/// Picks the first listed job that can stand in for a submission with the
/// given digest, if any.
pub fn find_reusable_batch(batches: &Vec<Batch>, digest_str: &str) -> (r: Option<usize>)
    ensures
        r matches Some(i) ==> i < batches@.len() && batch_reusable(batches@[i as int], digest_str@)
            && (forall|t: int| 0 <= t < i ==> !batch_reusable(#[trigger] batches@[t], digest_str@)),
        r is None ==> (forall|t: int|
            0 <= t < batches@.len() ==> !batch_reusable(#[trigger] batches@[t], digest_str@)),
{
    let n = batches.len();
    let mut i: usize = 0;
    while i < n
        invariant
            i <= n,
            n == batches@.len(),
            forall|t: int| 0 <= t < i ==> !batch_reusable(#[trigger] batches@[t], digest_str@),
        decreases n - i,
    {
        let b = &batches[i];
        let live = b.status == BatchStatus::Completed || b.status == BatchStatus::InProgress
            || b.status == BatchStatus::Validating;
        if live {
            match &b.metadata {
                Some(m) => {
                    match meta_lookup(m, "request_hash") {
                        Some(v) => {
                            if str_eq(v.as_str(), digest_str) {
                                return Some(i);
                            }
                        },
                        None => {},
                    }
                },
                None => {},
            }
        }
        i = i + 1;
    }
    None
}

/// The metadata this library attaches to a job it creates: the submission
/// digest under the reserved key.
pub fn metadata_for_digest(digest: u64) -> (r: Vec<(String, String)>)
    ensures
        pairs_view(r@) == seq![("request_hash"@, dec_chars(digest as nat))],
{
    let mut m: Vec<(String, String)> = Vec::new();
    m.push((String::from_str("request_hash"), u64_to_string(digest)));
    proof {
        lemma_pairs_view(m@);
        assert(pairs_view(m@) =~= seq![("request_hash"@, dec_chars(digest as nat))]);
    }
    m
}

/// The wire form of a job-creation request.
pub open spec fn create_body_jv(
    input_file_id: Seq<char>,
    endpoint: Seq<char>,
    metadata: Seq<(Seq<char>, Seq<char>)>,
) -> JsonV {
    JsonV::Obj(
        seq![
            ("input_file_id"@, JsonV::Str(input_file_id)),
            ("endpoint"@, JsonV::Str(endpoint)),
            ("completion_window"@, JsonV::Str("24h"@)),
            ("metadata"@, JsonV::Obj(meta_entries_jv(metadata))),
        ],
    )
}

/// A metadata map as JSON members.
pub open spec fn meta_entries_jv(pairs: Seq<(Seq<char>, Seq<char>)>) -> Seq<(Seq<char>, JsonV)>
    decreases pairs.len(),
{
    if pairs.len() == 0 {
        Seq::empty()
    } else {
        meta_entries_jv(pairs.drop_last()).push((pairs.last().0, JsonV::Str(pairs.last().1)))
    }
}

/// Builds the body of a job-creation request: the content blob's identifier,
/// the endpoint, the fixed completion window, and the metadata.
pub fn create_batch_body(input_file_id: &str, endpoint: &str, metadata: &Vec<(String, String)>)
    -> (r: Json)
    ensures
        r@ == create_body_jv(input_file_id@, endpoint@, pairs_view(metadata@)),
{
    proof {
        lemma_pairs_view(metadata@);
        assert(pairs_view(metadata@).take(0) =~= Seq::<(Seq<char>, Seq<char>)>::empty());
        assert(meta_entries_jv(pairs_view(metadata@).take(0)) =~= Seq::<(Seq<char>, JsonV)>::empty());
    }
    let n = metadata.len();
    let mut me: Vec<(String, Json)> = Vec::new();
    let mut i: usize = 0;
    while i < n
        invariant
            i <= n,
            n == metadata@.len(),
            pairs_view(metadata@).len() == n,
            forall|t: int|
                0 <= t < n ==> #[trigger] pairs_view(metadata@)[t] == (
                    metadata@[t].0@,
                    metadata@[t].1@,
                ),
            view_entries(me@) == meta_entries_jv(pairs_view(metadata@).take(i as int)),
        decreases n - i,
    {
        let ghost pv = pairs_view(metadata@);
        let ghost me0 = me@;
        me.push((metadata[i].0.clone(), Json::Str(metadata[i].1.clone())));
        proof {
            lemma_view_entries(me0);
            lemma_view_entries(me@);
            assert(me@.drop_last() =~= me0);
            assert(view_entries(me@) == view_entries(me0).push(
                (metadata@[i as int].0@, JsonV::Str(metadata@[i as int].1@)),
            ));
            assert(pv.take(i + 1 as int).drop_last() =~= pv.take(i as int));
            assert(pv.take(i + 1 as int).last() == pv[i as int]);
        }
        i = i + 1;
    }
    proof {
        assert(pairs_view(metadata@).take(n as int) =~= pairs_view(metadata@));
    }
    let mut e: Vec<(String, Json)> = Vec::new();
    e.push((String::from_str("input_file_id"), Json::Str(String::from_str(input_file_id))));
    e.push((String::from_str("endpoint"), Json::Str(String::from_str(endpoint))));
    e.push((String::from_str("completion_window"), Json::Str(String::from_str("24h"))));
    e.push((String::from_str("metadata"), Json::Obj(me)));
    proof {
        lemma_view_entries(e@);
        assert(view_entries(e@) =~= seq![
            ("input_file_id"@, JsonV::Str(input_file_id@)),
            ("endpoint"@, JsonV::Str(endpoint@)),
            ("completion_window"@, JsonV::Str("24h"@)),
            ("metadata"@, JsonV::Obj(meta_entries_jv(pairs_view(metadata@)))),
        ]);
    }
    Json::Obj(e)
}

/// One planned submission: the request lines, their custom identifiers and
/// fingerprints in the caller's order, and the submission digest.
#[derive(Debug)]
pub struct SubmissionPlan {
    /// The custom identifiers, in the caller's request order.
    pub custom_ids: Vec<String>,
    /// The fingerprints, in the caller's request order.
    pub fingerprints: Vec<u64>,
    /// The request lines, in the caller's request order.
    pub items: Vec<BatchRequestItem>,
    /// The order-independent submission digest.
    pub digest: u64,
}

/// The request a prompt stands for, under a model.
pub open spec fn planned_request(
    model: String,
    prompt: (Vec<ChatMessage>, ResponseFormat),
) -> ChatRequest {
    ChatRequest { model: model, messages: prompt.0, response_format: prompt.1 }
}

/// Plans a submission: fingerprints every request, derives its custom
/// identifier, builds its request line, and folds the digest.
///
/// Everything about the plan is positional: entry `i` of each list belongs
/// to the caller's request `i`.
pub fn plan_requests(model: &String, prompts: Vec<(Vec<ChatMessage>, ResponseFormat)>) -> (r:
    SubmissionPlan)
    ensures
        ({
            let ps = prompts@;
            &&& r.custom_ids@.len() == ps.len()
            &&& r.fingerprints@.len() == ps.len()
            &&& r.items@.len() == ps.len()
            &&& (forall|i: int|
                0 <= i < ps.len() ==> r.fingerprints@[i] == request_fingerprint(
                    #[trigger] planned_request(*model, ps[i]),
                ))
            &&& (forall|i: int|
                0 <= i < ps.len() ==> (#[trigger] r.custom_ids@[i])@ == custom_id_chars(
                    r.fingerprints@[i],
                ))
            &&& (forall|i: int|
                0 <= i < ps.len() ==> {
                    let it = #[trigger] r.items@[i];
                    &&& it.custom_id@ == custom_id_chars(r.fingerprints@[i])
                    &&& it.method@ == "POST"@
                    &&& it.url@ == "/v1/chat/completions"@
                    &&& it.body@ == chat_request_jv(planned_request(*model, ps[i]))
                })
            &&& r.digest == digest_of(r.fingerprints@)
        }),
{
    let ghost ps = prompts@;
    let mut prompts = prompts;
    let mut custom_ids: Vec<String> = Vec::new();
    let mut fingerprints: Vec<u64> = Vec::new();
    let mut items: Vec<BatchRequestItem> = Vec::new();
    let mut i: usize = 0;
    let n = prompts.len();
    while i < n
        invariant
            i <= n,
            n == ps.len(),
            prompts@ == ps.skip(i as int),
            custom_ids@.len() == i,
            fingerprints@.len() == i,
            items@.len() == i,
            forall|t: int|
                0 <= t < i ==> fingerprints@[t] == request_fingerprint(
                    #[trigger] planned_request(*model, ps[t]),
                ),
            forall|t: int|
                0 <= t < i ==> (#[trigger] custom_ids@[t])@ == custom_id_chars(fingerprints@[t]),
            forall|t: int|
                0 <= t < i ==> {
                    let it = #[trigger] items@[t];
                    &&& it.custom_id@ == custom_id_chars(fingerprints@[t])
                    &&& it.method@ == "POST"@
                    &&& it.url@ == "/v1/chat/completions"@
                    &&& it.body@ == chat_request_jv(planned_request(*model, ps[t]))
                },
        decreases n - i,
    {
        let p = prompts.remove(0);
        proof {
            assert(ps.skip(i as int)[0] == ps[i as int]);
            assert(ps.skip(i as int).remove(0) =~= ps.skip(i + 1 as int));
        }
        let req = ChatRequest { model: model.clone(), messages: p.0, response_format: p.1 };
        let fp = fingerprint_request(&req);
        let cid = custom_id_for(fp);
        let item = BatchRequestItem::new_chat(cid.clone(), req);
        custom_ids.push(cid);
        fingerprints.push(fp);
        items.push(item);
        i = i + 1;
    }
    let digest = submission_digest(&fingerprints);
    SubmissionPlan { custom_ids, fingerprints, items, digest }
}

} // verus!
