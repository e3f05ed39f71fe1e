use vstd::multiset::Multiset;
use vstd::prelude::*;

use crate::types::{CreateTest, HttpMethods, Test, TestResult};
use crate::utils::{mean_of, median};

verus! {

/// The outcomes of one worker that started in second `k`, in recording
/// order. An outcome whose second lies outside the run's window falls in no
/// bucket and is discarded, never grouped under a key of its own.
pub open spec fn bucket_of(outcomes: Seq<Test>, k: int) -> Seq<Test>
    decreases outcomes.len(),
{
    if outcomes.len() == 0 {
        Seq::empty()
    } else {
        let rest = bucket_of(outcomes.drop_last(), k);
        if outcomes.last().second == k {
            rest.push(outcomes.last())
        } else {
            rest
        }
    }
}

/// The transport-error descriptions of a bucket, one per outcome that got no
/// response, in recording order.
pub open spec fn errors_of(bucket: Seq<Test>) -> Seq<Seq<char>>
    decreases bucket.len(),
{
    if bucket.len() == 0 {
        Seq::empty()
    } else {
        let rest = errors_of(bucket.drop_last());
        match bucket.last().error_code {
            Option::Some(e) => rest.push(e@),
            Option::None => rest,
        }
    }
}

/// The status codes of a bucket, one per outcome that received a response,
/// in recording order.
pub open spec fn codes_of(bucket: Seq<Test>) -> Seq<u16>
    decreases bucket.len(),
{
    if bucket.len() == 0 {
        Seq::empty()
    } else {
        let rest = codes_of(bucket.drop_last());
        match bucket.last().response_code {
            Option::Some(c) => rest.push(c),
            Option::None => rest,
        }
    }
}

/// The latencies of a bucket, one per outcome, in recording order.
pub open spec fn times_of(bucket: Seq<Test>) -> Seq<u64>
    decreases bucket.len(),
{
    if bucket.len() == 0 {
        Seq::empty()
    } else {
        times_of(bucket.drop_last()).push(bucket.last().response_time)
    }
}

/// Appending one outcome extends a bucket exactly when the outcome's second
/// matches the bucket's key.
pub proof fn lemma_bucket_push(outcomes: Seq<Test>, t: Test, k: int)
    ensures
        bucket_of(outcomes.push(t), k) == if t.second == k {
            bucket_of(outcomes, k).push(t)
        } else {
            bucket_of(outcomes, k)
        },
{
    assert(outcomes.push(t).drop_last() =~= outcomes);
}

/// Appending one outcome to a bucket extends its error, code and latency
/// views by exactly that outcome's contribution.
pub proof fn lemma_stats_push(bucket: Seq<Test>, t: Test)
    ensures
        errors_of(bucket.push(t)) == match t.error_code {
            Option::Some(e) => errors_of(bucket).push(e@),
            Option::None => errors_of(bucket),
        },
        codes_of(bucket.push(t)) == match t.response_code {
            Option::Some(c) => codes_of(bucket).push(c),
            Option::None => codes_of(bucket),
        },
        times_of(bucket.push(t)) == times_of(bucket).push(t.response_time),
{
    assert(bucket.push(t).drop_last() =~= bucket);
}

/// A bucket never holds more outcomes than the worker recorded.
pub proof fn lemma_bucket_len(outcomes: Seq<Test>, k: int)
    ensures
        bucket_of(outcomes, k).len() <= outcomes.len(),
    decreases outcomes.len(),
{
    if outcomes.len() > 0 {
        lemma_bucket_len(outcomes.drop_last(), k);
    }
}

/// A bucket contributes one latency per outcome in it.
pub proof fn lemma_times_len(bucket: Seq<Test>)
    ensures
        times_of(bucket).len() == bucket.len(),
    decreases bucket.len(),
{
    if bucket.len() > 0 {
        lemma_times_len(bucket.drop_last());
    }
}

/// Whether `summary` is the correct digest of bucket `k` of a worker's
/// outcomes: the right key, one counted request per outcome in the bucket,
/// the bucket's error and status-code lists in recording order, and the
/// truncated mean of its latencies.
pub open spec fn summary_matches(outcomes: Seq<Test>, summary: TestResult, k: int) -> bool {
    let b = bucket_of(outcomes, k);
    &&& summary.second == k
    &&& summary.requests == b.len()
    &&& summary.error_codes.deep_view() == errors_of(b)
    &&& summary.response_codes@ == codes_of(b)
    &&& summary.avg_response_time == mean_of(times_of(b))
}

/// Folds one worker's raw outcomes into exactly `seconds` summaries, one per
/// second of the run window in ascending order, empty buckets included. An
/// outcome recorded outside the window is discarded rather than grouped
/// under an out-of-range key.
pub fn aggregate_worker_results(outcomes: &Vec<Test>, seconds: u64) -> (r: Vec<TestResult>)
    requires
        outcomes@.len() <= i64::MAX as int,
        seconds <= i64::MAX as u64,
    ensures
        r@.len() == seconds as int,
        forall|k: int| 0 <= k < seconds as int ==> summary_matches(outcomes@, #[trigger] r@[k], k),
{
    let mut r: Vec<TestResult> = Vec::new();
    let mut k: u64 = 0;
    while k < seconds
        invariant
            outcomes@.len() <= i64::MAX as int,
            seconds <= i64::MAX as u64,
            k <= seconds,
            r@.len() == k as int,
            forall|j: int| 0 <= j < k as int ==> summary_matches(outcomes@, #[trigger] r@[j], j),
        decreases seconds - k,
    {
        let mut errs: Vec<String> = Vec::new();
        let mut codes: Vec<u16> = Vec::new();
        let mut times: Vec<u64> = Vec::new();
        proof {
            assert(outcomes@.take(0) =~= Seq::<Test>::empty());
            assert(errs.deep_view() =~= Seq::<Seq<char>>::empty());
        }
        let mut i: usize = 0;
        while i < outcomes.len()
            invariant
                outcomes@.len() <= i64::MAX as int,
                seconds <= i64::MAX as u64,
                k < seconds,
                i <= outcomes@.len(),
                errs.deep_view() == errors_of(bucket_of(outcomes@.take(i as int), k as int)),
                codes@ == codes_of(bucket_of(outcomes@.take(i as int), k as int)),
                times@ == times_of(bucket_of(outcomes@.take(i as int), k as int)),
            decreases outcomes@.len() - i,
        {
            proof {
                assert(outcomes@.take(i as int + 1) =~= outcomes@.take(i as int).push(
                    outcomes@[i as int],
                ));
                lemma_bucket_push(outcomes@.take(i as int), outcomes@[i as int], k as int);
                lemma_stats_push(bucket_of(outcomes@.take(i as int), k as int), outcomes@[i as int]);
            }
            let t = &outcomes[i];
            if t.second == k as i64 {
                match &t.error_code {
                    Option::Some(e) => {
                        let ghost errs0 = errs.deep_view();
                        errs.push(e.clone());
                        proof {
                            assert(errs.deep_view() =~= errs0.push(e@));
                        }
                    },
                    Option::None => {},
                }
                match &t.response_code {
                    Option::Some(c) => codes.push(*c),
                    Option::None => {},
                }
                times.push(t.response_time);
            }
            i = i + 1;
        }
        proof {
            assert(outcomes@.take(outcomes@.len() as int) =~= outcomes@);
            lemma_bucket_len(outcomes@, k as int);
            lemma_times_len(bucket_of(outcomes@, k as int));
        }
        let requests = times.len() as i64;
        let avg = median(times);
        r.push(
            TestResult {
                second: k as i64,
                error_codes: errs,
                response_codes: codes,
                requests,
                avg_response_time: avg,
            },
        );
        k = k + 1;
    }
    r
}

/// Classifies what one issued request came to: a response, whatever its
/// status, is recorded by its code; a transport failure is recorded by its
/// description. Exactly one of the two is ever present.
pub fn classify_outcome(second: i64, response_time: u64, response: Result<u16, String>) -> (r:
    Test)
    ensures
        r.second == second,
        r.response_time == response_time,
        r.wf(),
        match response {
            Result::Ok(c) => r.response_code == Some(c) && r.error_code is None,
            Result::Err(e) => r.error_code == Some(e) && r.response_code is None,
        },
{
    match response {
        Result::Ok(code) => Test {
            second,
            error_code: Option::None,
            response_code: Option::Some(code),
            response_time,
        },
        Result::Err(description) => Test {
            second,
            error_code: Option::Some(description),
            response_code: Option::None,
            response_time,
        },
    }
}

/// Everything one request of the run puts on the wire, ready for a client
/// to issue: the method and target, and — only for methods that carry a
/// payload — the declared header value and body.
pub struct RequestParts {
    pub method: HttpMethods,
    pub url: String,
    pub content_type: Option<String>,
    pub body: Option<String>,
}

/// Builds what a worker sends on each iteration. A GET carries neither
/// header nor body whatever the test declares; a POST carries the declared
/// content type and body when present.
pub fn request_parts(test: &CreateTest) -> (r: RequestParts)
    ensures
        r.method == test.method,
        r.url@ == test.url@,
        test.method == HttpMethods::GET ==> r.content_type is None && r.body is None,
        test.method == HttpMethods::POST ==> {
            &&& match test.content_type {
                Option::Some(ct) => r.content_type matches Some(h) && h@ == ct.spec_header_value(),
                Option::None => r.content_type is None,
            }
            &&& r.body == test.body
        },
{
    let url = test.url.clone();
    match test.method {
        HttpMethods::GET => RequestParts {
            method: HttpMethods::GET,
            url,
            content_type: Option::None,
            body: Option::None,
        },
        HttpMethods::POST => {
            let content_type = match &test.content_type {
                Option::Some(ct) => Option::Some(ct.header_value()),
                Option::None => Option::None,
            };
            let body = match &test.body {
                Option::Some(b) => Option::Some(b.clone()),
                Option::None => Option::None,
            };
            RequestParts { method: HttpMethods::POST, url, content_type, body }
        },
    }
}

/// The summaries of an incoming stream that carry second `k`, in arrival
/// order.
pub open spec fn results_for(summaries: Seq<TestResult>, k: int) -> Seq<TestResult>
    decreases summaries.len(),
{
    if summaries.len() == 0 {
        Seq::empty()
    } else {
        let rest = results_for(summaries.drop_last(), k);
        if summaries.last().second == k {
            rest.push(summaries.last())
        } else {
            rest
        }
    }
}

/// One more arrival lands in the group of its own second and in no other.
pub proof fn lemma_results_push(summaries: Seq<TestResult>, t: TestResult, k: int)
    ensures
        results_for(summaries.push(t), k) == if t.second == k {
            results_for(summaries, k).push(t)
        } else {
            results_for(summaries, k)
        },
{
    assert(summaries.push(t).drop_last() =~= summaries);
}

/// Regroups the summaries drained from the hand-off channel by their second,
/// into one entry per second of the run window, in ascending order: entry
/// `k` holds every summary for second `k`, in arrival order. A degenerate
/// run (`tasks` or `seconds` zero) expects no summary and yields the empty
/// result. A summary carrying an out-of-range second is discarded rather
/// than grouped under a key outside the window.
pub fn collect_results(summaries: Vec<TestResult>, tasks: u64, seconds: u64) -> (r: Vec<
    (i64, Vec<TestResult>),
>)
    requires
        seconds <= i64::MAX as u64,
        seconds as int <= usize::MAX as int,
    ensures
        tasks == 0 || seconds == 0 ==> r@.len() == 0,
        tasks > 0 && seconds > 0 ==> {
            &&& r@.len() == seconds as int
            &&& forall|k: int|
                0 <= k < seconds as int ==> (#[trigger] r@[k]).0 == k as i64 && r@[k].1@
                    == results_for(summaries@, k)
        },
{
    if tasks == 0 || seconds == 0 {
        return Vec::new();
    }
    let ghost all = summaries@;
    let mut buckets: Vec<Vec<TestResult>> = Vec::new();
    let mut k: u64 = 0;
    while k < seconds
        invariant
            k <= seconds,
            buckets@.len() == k as int,
            forall|j: int|
                0 <= j < k as int ==> (#[trigger] buckets@[j])@ == Seq::<TestResult>::empty(),
        decreases seconds - k,
    {
        buckets.push(Vec::new());
        k = k + 1;
    }
    proof {
        assert(all.take(0) =~= Seq::<TestResult>::empty());
    }
    let mut rest = summaries;
    let ghost mut done: int = 0;
    while rest.len() > 0
        invariant
            0 <= done <= all.len(),
            rest@ == all.skip(done),
            1 <= seconds <= i64::MAX as u64,
            seconds as int <= usize::MAX as int,
            buckets@.len() == seconds as int,
            forall|j: int|
                0 <= j < seconds as int ==> (#[trigger] buckets@[j])@ == results_for(
                    all.take(done),
                    j,
                ),
        decreases rest@.len(),
    {
        let t = rest.remove(0);
        proof {
            assert(t == all[done]);
            assert(rest@ =~= all.skip(done + 1));
            assert(all.take(done + 1) =~= all.take(done).push(all[done]));
        }
        let ghost b_pre = buckets@;
        let sec = t.second;
        let ghost tsec = t.second as int;
        if 0 <= sec && sec < seconds as i64 {
            let idx = sec as usize;
            let mut b = buckets.remove(idx);
            b.push(t);
            let ghost b_new = b;
            buckets.insert(idx, b);
            proof {
                b_pre.remove_ensures(tsec);
                b_pre.remove(tsec).insert_ensures(tsec, b_new);
                assert forall|j: int| 0 <= j < seconds as int implies (#[trigger] buckets@[j])@
                    == results_for(all.take(done + 1), j) by {
                    lemma_results_push(all.take(done), t, j);
                    if j < tsec {
                        assert(buckets@[j] == b_pre[j]);
                    } else if j > tsec {
                        assert(buckets@[j] == b_pre.remove(tsec)[j - 1]);
                        assert(buckets@[j] == b_pre[j]);
                    }
                }
            }
        } else {
            proof {
                assert forall|j: int| 0 <= j < seconds as int implies (#[trigger] buckets@[j])@
                    == results_for(all.take(done + 1), j) by {
                    lemma_results_push(all.take(done), t, j);
                }
            }
        }
        proof {
            done = done + 1;
        }
    }
    proof {
        assert(all.take(done) =~= all);
    }
    let mut r: Vec<(i64, Vec<TestResult>)> = Vec::new();
    let mut out: u64 = 0;
    let mut bs = buckets;
    while out < seconds
        invariant
            out <= seconds,
            1 <= seconds <= i64::MAX as u64,
            r@.len() == out as int,
            bs@.len() == seconds as int - out as int,
            forall|j: int|
                0 <= j < out as int ==> (#[trigger] r@[j]).0 == j as i64 && r@[j].1@ == results_for(
                    all,
                    j,
                ),
            forall|j: int|
                0 <= j < seconds as int - out as int ==> (#[trigger] bs@[j])@ == results_for(
                    all,
                    j + out as int,
                ),
        decreases seconds - out,
    {
        let b = bs.remove(0);
        r.push((out as i64, b));
        out = out + 1;
    }
    r
}

/// Regrouping distributes over concatenation of summary streams: the
/// summaries of second `k` in a combined stream are those of its two parts,
/// in order.
pub proof fn lemma_results_for_concat(a: Seq<TestResult>, b: Seq<TestResult>, k: int)
    ensures
        results_for(a + b, k) == results_for(a, k) + results_for(b, k),
    decreases b.len(),
{
    if b.len() == 0 {
        assert(a + b =~= a);
        assert(results_for(a, k) + results_for(b, k) =~= results_for(a, k));
    } else {
        lemma_results_for_concat(a, b.drop_last(), k);
        assert((a + b).drop_last() =~= a + b.drop_last());
        if b.last().second == k {
            assert(results_for(a, k) + results_for(b.drop_last(), k).push(b.last()) =~= (
            results_for(a, k) + results_for(b.drop_last(), k)).push(b.last()));
        }
    }
}

/// A stream that carries exactly one summary per second of the window, keyed
/// in ascending order, contributes exactly that one summary to its own
/// second's group and nothing to any other.
pub proof fn lemma_single_worker_group(output: Seq<TestResult>, seconds: int, k: int)
    requires
        output.len() == seconds,
        forall|j: int| 0 <= j < seconds ==> (#[trigger] output[j]).second == j,
    ensures
        0 <= k < seconds ==> results_for(output, k) == seq![output[k]],
        !(0 <= k < seconds) ==> results_for(output, k) == Seq::<TestResult>::empty(),
    decreases output.len(),
{
    if output.len() > 0 {
        let pre = output.drop_last();
        lemma_single_worker_group(pre, seconds - 1, k);
        if k == seconds - 1 {
            assert(results_for(pre, k).push(output.last()) =~= seq![output[k]]);
        }
    }
}

/// Every worker that completes contributes `seconds` summaries, so a run of
/// `tasks` workers hands the collector exactly `tasks * seconds` summaries.
pub proof fn lemma_total_summaries(outputs: Seq<Seq<TestResult>>, seconds: int)
    requires
        forall|w: int| 0 <= w < outputs.len() ==> (#[trigger] outputs[w]).len() == seconds,
    ensures
        outputs.flatten().len() == outputs.len() * seconds,
    decreases outputs.len(),
{
    if outputs.len() == 0 {
        assert(outputs.flatten().len() == 0);
    } else {
        lemma_total_summaries(outputs.drop_first(), seconds);
        assert(outputs.flatten().len() == seconds + (outputs.len() - 1) * seconds);
        assert(seconds + (outputs.len() - 1) * seconds == outputs.len() * seconds) by (nonlinear_arith);
    }
}

/// However worker outputs are ordered in the channel, as long as each worker
/// contributed one summary per second of the window in ascending key order,
/// the regrouped result holds exactly one summary per worker under every
/// second key.
pub proof fn lemma_one_summary_per_worker(outputs: Seq<Seq<TestResult>>, seconds: int, k: int)
    requires
        0 <= k < seconds,
        forall|w: int| 0 <= w < outputs.len() ==> (#[trigger] outputs[w]).len() == seconds,
        forall|w: int, j: int|
            0 <= w < outputs.len() && 0 <= j < seconds ==> (#[trigger] outputs[w][j]).second == j,
    ensures
        results_for(outputs.flatten(), k).len() == outputs.len(),
    decreases outputs.len(),
{
    if outputs.len() > 0 {
        let rest = outputs.drop_first();
        assert forall|w: int| 0 <= w < rest.len() implies (#[trigger] rest[w]).len()
            == seconds by {
            assert(rest[w] == outputs[w + 1]);
        }
        assert forall|w: int, j: int|
            0 <= w < rest.len() && 0 <= j < seconds implies (#[trigger] rest[w][j]).second
            == j by {
            assert(rest[w] == outputs[w + 1]);
        }
        lemma_one_summary_per_worker(rest, seconds, k);
        lemma_results_for_concat(outputs.first(), rest.flatten(), k);
        lemma_single_worker_group(outputs.first(), seconds, k);
    }
}

/// Regrouping counts a stream's summaries by their contents, not their
/// order: the size of second `k`'s group is the number of summaries carrying
/// second `k` in the stream's multiset of contents.
pub proof fn lemma_group_size_counts_contents(s: Seq<TestResult>, k: int)
    ensures
        results_for(s, k).len() == s.to_multiset().filter(
            |t: TestResult| t.second == k,
        ).len(),
    decreases s.len(),
{
    broadcast use vstd::seq_lib::group_to_multiset_ensures;
    broadcast use vstd::multiset::group_multiset_axioms;

    let p = |t: TestResult| t.second == k;
    if s.len() == 0 {
        assert(s.to_multiset().filter(p) =~= Multiset::<TestResult>::empty());
    } else {
        let pre = s.drop_last();
        let t = s.last();
        lemma_group_size_counts_contents(pre, k);
        assert(pre.push(t) =~= s);
        assert(s.to_multiset() =~= pre.to_multiset().insert(t));
        let m = pre.to_multiset();
        if t.second == k {
            assert(m.insert(t).filter(p) =~= m.filter(p).insert(t));
            vstd::multiset::lemma_insert_len(m.filter(p), t);
        } else {
            assert(m.insert(t).filter(p) =~= m.filter(p));
        }
    }
}

/// However the channel interleaves the workers' summaries, two streams that
/// carry the same summaries regroup into groups of the same sizes under
/// every second key.
pub proof fn lemma_grouping_order_independent(s1: Seq<TestResult>, s2: Seq<TestResult>, k: int)
    requires
        s1.to_multiset() == s2.to_multiset(),
    ensures
        results_for(s1, k).len() == results_for(s2, k).len(),
{
    lemma_group_size_counts_contents(s1, k);
    lemma_group_size_counts_contents(s2, k);
}

/// A second bucket that saw no requests reports empty error and status-code
/// lists and a mean latency of zero — never an undefined value.
pub proof fn lemma_empty_bucket(outcomes: Seq<Test>, k: int)
    requires
        bucket_of(outcomes, k).len() == 0,
    ensures
        errors_of(bucket_of(outcomes, k)) == Seq::<Seq<char>>::empty(),
        codes_of(bucket_of(outcomes, k)) == Seq::<u16>::empty(),
        mean_of(times_of(bucket_of(outcomes, k))) == 0,
{
    assert(bucket_of(outcomes, k) =~= Seq::<Test>::empty());
}

/// When no request of a worker ever received a response — every recorded
/// outcome carries a transport error — every bucket's status-code list is
/// empty and its error list accounts for every attempt in it.
pub proof fn lemma_all_errors(outcomes: Seq<Test>, k: int)
    requires
        forall|i: int|
            0 <= i < outcomes.len() ==> (#[trigger] outcomes[i]).wf() && outcomes[i].error_code
                is Some,
    ensures
        codes_of(bucket_of(outcomes, k)) == Seq::<u16>::empty(),
        errors_of(bucket_of(outcomes, k)).len() == bucket_of(outcomes, k).len(),
    decreases outcomes.len(),
{
    if outcomes.len() > 0 {
        lemma_all_errors(outcomes.drop_last(), k);
        if outcomes.last().second == k {
            assert(outcomes.last() == outcomes[outcomes.len() - 1]);
            lemma_stats_push(bucket_of(outcomes.drop_last(), k), outcomes.last());
        }
    }
}

} // verus!
