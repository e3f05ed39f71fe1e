use vstd::prelude::*;
use vstd::string::StringExecFns;

use crate::types::TestResult;
use crate::utils::{mean_of, median};

verus! {

/// One stored test, as the persistence layer keeps it: identity, target,
/// method, declared content type, lifecycle status and timestamps.
#[derive(Clone, Debug)]
pub struct TestRow {
    pub id: String,
    pub url: String,
    pub method: String,
    pub content_type: String,
    pub status: String,
    pub body: Option<String>,
    pub created_at: String,
    pub finished_at: Option<String>,
}

/// One stored per-second aggregate of a test: the cross-worker totals for a
/// single second, with the code lists flattened into comma-joined strings.
#[derive(Clone, Debug)]
pub struct TestResultsRow {
    pub id: String,
    pub test_id: String,
    pub second: i64,
    pub requests: i64,
    pub error_codes: String,
    pub response_codes: String,
    pub avg_response_time: i64,
}

/// A stored test together with every per-second row recorded for it, as it
/// is handed back to a caller asking after the test.
#[derive(Clone, Debug)]
pub struct TestWithResults {
    pub id: String,
    pub url: String,
    pub method: String,
    pub content_type: String,
    pub status: String,
    pub body: Option<String>,
    pub created_at: String,
    pub finished_at: Option<String>,
    pub results: Vec<TestResultsRow>,
}

impl TestWithResults {
    /// Pairs a stored test with its per-second rows, field for field.
    pub fn from_parts(test: TestRow, results: Vec<TestResultsRow>) -> (r: TestWithResults)
        ensures
            r.id == test.id,
            r.url == test.url,
            r.method == test.method,
            r.content_type == test.content_type,
            r.status == test.status,
            r.body == test.body,
            r.created_at == test.created_at,
            r.finished_at == test.finished_at,
            r.results == results,
    {
        TestWithResults {
            id: test.id,
            url: test.url,
            method: test.method,
            content_type: test.content_type,
            status: test.status,
            body: test.body,
            created_at: test.created_at,
            finished_at: test.finished_at,
            results,
        }
    }
}

/// The character of one decimal digit.
pub open spec fn digit_char(d: int) -> char {
    if d == 0 {
        '0'
    } else if d == 1 {
        '1'
    } else if d == 2 {
        '2'
    } else if d == 3 {
        '3'
    } else if d == 4 {
        '4'
    } else if d == 5 {
        '5'
    } else if d == 6 {
        '6'
    } else if d == 7 {
        '7'
    } else if d == 8 {
        '8'
    } else {
        '9'
    }
}

/// The decimal writing of a nonnegative integer, most significant digit
/// first, with no leading zero except for zero itself.
pub open spec fn dec_digits(n: int) -> Seq<char>
    recommends
        n >= 0,
    decreases n,
{
    if n < 10 {
        seq![digit_char(n)]
    } else {
        dec_digits(n / 10).push(digit_char(n % 10))
    }
}

/// One decimal digit as a string slice.
fn digit_str(d: u64) -> (r: &'static str)
    requires
        d < 10,
    ensures
        r@ == seq![digit_char(d as int)],
{
    proof {
        reveal_strlit("0");
        reveal_strlit("1");
        reveal_strlit("2");
        reveal_strlit("3");
        reveal_strlit("4");
        reveal_strlit("5");
        reveal_strlit("6");
        reveal_strlit("7");
        reveal_strlit("8");
        reveal_strlit("9");
    }
    if d == 0 {
        let r = "0";
        proof {
            assert(r@ =~= seq![digit_char(d as int)]);
        }
        r
    } else if d == 1 {
        let r = "1";
        proof {
            assert(r@ =~= seq![digit_char(d as int)]);
        }
        r
    } else if d == 2 {
        let r = "2";
        proof {
            assert(r@ =~= seq![digit_char(d as int)]);
        }
        r
    } else if d == 3 {
        let r = "3";
        proof {
            assert(r@ =~= seq![digit_char(d as int)]);
        }
        r
    } else if d == 4 {
        let r = "4";
        proof {
            assert(r@ =~= seq![digit_char(d as int)]);
        }
        r
    } else if d == 5 {
        let r = "5";
        proof {
            assert(r@ =~= seq![digit_char(d as int)]);
        }
        r
    } else if d == 6 {
        let r = "6";
        proof {
            assert(r@ =~= seq![digit_char(d as int)]);
        }
        r
    } else if d == 7 {
        let r = "7";
        proof {
            assert(r@ =~= seq![digit_char(d as int)]);
        }
        r
    } else if d == 8 {
        let r = "8";
        proof {
            assert(r@ =~= seq![digit_char(d as int)]);
        }
        r
    } else {
        let r = "9";
        proof {
            assert(r@ =~= seq![digit_char(d as int)]);
        }
        r
    }
}

/// Writes `n` in decimal.
pub fn decimal_string(n: u64) -> (r: String)
    ensures
        r@ == dec_digits(n as int),
    decreases n,
{
    if n < 10 {
        digit_str(n).to_owned()
    } else {
        let mut r = decimal_string(n / 10);
        let d = digit_str(n % 10);
        r.append(d);
        proof {
            assert(r@ =~= dec_digits((n / 10) as int).push(digit_char((n % 10) as int)));
        }
        r
    }
}

/// A list of strings joined into one, a comma between neighbours and none at
/// either end.
pub open spec fn joined_with_commas(parts: Seq<Seq<char>>) -> Seq<char>
    decreases parts.len(),
{
    if parts.len() == 0 {
        Seq::empty()
    } else if parts.len() == 1 {
        parts[0]
    } else {
        joined_with_commas(parts.drop_last()) + seq![','] + parts.last()
    }
}

/// One more part extends a joined string by a comma and the part — or is the
/// whole string when it is the first.
pub proof fn lemma_join_push(parts: Seq<Seq<char>>, p: Seq<char>)
    ensures
        joined_with_commas(parts.push(p)) == if parts.len() == 0 {
            p
        } else {
            joined_with_commas(parts) + seq![','] + p
        },
{
    assert(parts.push(p).drop_last() =~= parts);
    if parts.len() == 0 {
        assert(parts.push(p)[0] == p);
    }
}

/// Joins a list of strings with commas.
pub fn join_commas(parts: &Vec<String>) -> (r: String)
    ensures
        r@ == joined_with_commas(parts.deep_view()),
{
    let mut r = String::new();
    proof {
        assert(parts.deep_view().take(0) =~= Seq::<Seq<char>>::empty());
    }
    let mut i: usize = 0;
    while i < parts.len()
        invariant
            i <= parts@.len(),
            parts.deep_view().len() == parts@.len(),
            r@ == joined_with_commas(parts.deep_view().take(i as int)),
        decreases parts@.len() - i,
    {
        if i > 0 {
            r.append(",");
        }
        r.append(parts[i].as_str());
        proof {
            reveal_strlit(",");
            assert(","@ =~= seq![',']);
            let dv = parts.deep_view();
            assert(dv[i as int] == parts@[i as int]@);
            assert(dv.take(i as int + 1) =~= dv.take(i as int).push(dv[i as int]));
            lemma_join_push(dv.take(i as int), dv[i as int]);
            if i == 0 {
                assert(r@ =~= dv[0]);
            }
        }
        i = i + 1;
    }
    proof {
        assert(parts.deep_view().take(parts@.len() as int) =~= parts.deep_view());
    }
    r
}

/// Total requests across the per-worker summaries of one second.
pub open spec fn total_requests_of(rs: Seq<TestResult>) -> int
    decreases rs.len(),
{
    if rs.len() == 0 {
        0
    } else {
        total_requests_of(rs.drop_last()) + rs.last().requests
    }
}

/// The per-worker mean latencies of one second, in worker order.
pub open spec fn avgs_of(rs: Seq<TestResult>) -> Seq<u64>
    decreases rs.len(),
{
    if rs.len() == 0 {
        Seq::empty()
    } else {
        avgs_of(rs.drop_last()).push(rs.last().avg_response_time)
    }
}

/// Every error description of one second across workers, in worker order.
pub open spec fn all_errors_of(rs: Seq<TestResult>) -> Seq<Seq<char>>
    decreases rs.len(),
{
    if rs.len() == 0 {
        Seq::empty()
    } else {
        all_errors_of(rs.drop_last()) + rs.last().error_codes.deep_view()
    }
}

/// Every status code of one second across workers, in worker order.
pub open spec fn all_codes_of(rs: Seq<TestResult>) -> Seq<u16>
    decreases rs.len(),
{
    if rs.len() == 0 {
        Seq::empty()
    } else {
        all_codes_of(rs.drop_last()) + rs.last().response_codes@
    }
}

/// The decimal writings of a list of status codes, in order.
pub open spec fn dec_strings_of(cs: Seq<u16>) -> Seq<Seq<char>>
    decreases cs.len(),
{
    if cs.len() == 0 {
        Seq::empty()
    } else {
        dec_strings_of(cs.drop_last()).push(dec_digits(cs.last() as int))
    }
}

/// Whether the cross-worker reduction of one second fits the row's counters.
pub open spec fn row_fits(rs: Seq<TestResult>) -> bool {
    &&& total_requests_of(rs) <= i64::MAX as int
    &&& mean_of(avgs_of(rs)) <= i64::MAX as int
}

/// With no summary counting negative requests, extending the stream never
/// shrinks the total.
pub proof fn lemma_total_requests_monotone(rs: Seq<TestResult>, m: int)
    requires
        0 <= m <= rs.len(),
        forall|i: int| 0 <= i < rs.len() ==> (#[trigger] rs[i]).requests >= 0,
    ensures
        total_requests_of(rs) >= total_requests_of(rs.take(m)),
    decreases rs.len() - m,
{
    if m < rs.len() {
        lemma_total_requests_monotone(rs.drop_last(), m);
        assert(rs.drop_last().take(m) =~= rs.take(m));
        assert(rs.last() == rs[rs.len() - 1]);
    } else {
        assert(rs.take(m) =~= rs);
    }
}

/// Reduces the per-worker summaries of one second into the stored row for
/// it: requests summed across workers, the mean of the per-worker mean
/// latencies, and the error and status-code lists flattened in worker order
/// and joined with commas. Returns nothing exactly when a total would not
/// fit the row's counters.
pub fn build_result_row(id: String, test_id: String, second: i64, results: &Vec<TestResult>) -> (r:
    Option<TestResultsRow>)
    requires
        forall|i: int| 0 <= i < results@.len() ==> (#[trigger] results@[i]).requests >= 0,
    ensures
        r is Some <==> row_fits(results@),
        r matches Some(row) ==> {
            &&& row.id == id
            &&& row.test_id == test_id
            &&& row.second == second
            &&& row.requests == total_requests_of(results@)
            &&& row.avg_response_time == mean_of(avgs_of(results@))
            &&& row.error_codes@ == joined_with_commas(all_errors_of(results@))
            &&& row.response_codes@ == joined_with_commas(
                dec_strings_of(all_codes_of(results@)),
            )
        },
{
    let ghost rs = results@;
    proof {
        assert(rs.take(0) =~= Seq::<TestResult>::empty());
    }
    let mut total: i64 = 0;
    let mut i: usize = 0;
    while i < results.len()
        invariant
            i <= rs.len(),
            rs == results@,
            forall|t: int| 0 <= t < rs.len() ==> (#[trigger] rs[t]).requests >= 0,
            0 <= total,
            total == total_requests_of(rs.take(i as int)),
        decreases rs.len() - i,
    {
        proof {
            assert(rs.take(i as int + 1).drop_last() =~= rs.take(i as int));
            assert(rs.take(i as int + 1).last() == rs[i as int]);
        }
        match total.checked_add(results[i].requests) {
            Option::Some(t2) => {
                total = t2;
            },
            Option::None => {
                proof {
                    lemma_total_requests_monotone(rs, i as int + 1);
                }
                return Option::None;
            },
        }
        i = i + 1;
    }
    proof {
        assert(rs.take(rs.len() as int) =~= rs);
    }
    let mut avgs: Vec<u64> = Vec::new();
    let mut i: usize = 0;
    while i < results.len()
        invariant
            i <= rs.len(),
            rs == results@,
            avgs@ == avgs_of(rs.take(i as int)),
        decreases rs.len() - i,
    {
        proof {
            assert(rs.take(i as int + 1).drop_last() =~= rs.take(i as int));
            assert(rs.take(i as int + 1).last() == rs[i as int]);
        }
        avgs.push(results[i].avg_response_time);
        i = i + 1;
    }
    proof {
        assert(rs.take(rs.len() as int) =~= rs);
    }
    let avg = median(avgs);
    if avg > i64::MAX as u64 {
        return Option::None;
    }
    let mut flat_errs: Vec<String> = Vec::new();
    proof {
        assert(flat_errs.deep_view() =~= Seq::<Seq<char>>::empty());
    }
    let mut i: usize = 0;
    while i < results.len()
        invariant
            i <= rs.len(),
            rs == results@,
            flat_errs.deep_view() == all_errors_of(rs.take(i as int)),
        decreases rs.len() - i,
    {
        let errs = &results[i].error_codes;
        let ghost base = flat_errs.deep_view();
        proof {
            assert(base + errs.deep_view().take(0) =~= base);
        }
        let mut j: usize = 0;
        while j < errs.len()
            invariant
                j <= errs@.len(),
                errs == &results@[i as int].error_codes,
                i < rs.len(),
                rs == results@,
                base == all_errors_of(rs.take(i as int)),
                flat_errs.deep_view() == base + errs.deep_view().take(j as int),
            decreases errs@.len() - j,
        {
            let ghost pre = flat_errs.deep_view();
            flat_errs.push(errs[j].clone());
            proof {
                assert(flat_errs.deep_view() =~= pre.push(errs@[j as int]@));
                assert(errs.deep_view()[j as int] == errs@[j as int]@);
                assert(errs.deep_view().take(j as int + 1) =~= errs.deep_view().take(
                    j as int,
                ).push(errs.deep_view()[j as int]));
                assert(base + errs.deep_view().take(j as int + 1) =~= (base
                    + errs.deep_view().take(j as int)).push(errs.deep_view()[j as int]));
            }
            j = j + 1;
        }
        proof {
            assert(errs.deep_view().take(errs@.len() as int) =~= errs.deep_view());
            assert(rs.take(i as int + 1).drop_last() =~= rs.take(i as int));
            assert(rs.take(i as int + 1).last() == rs[i as int]);
        }
        i = i + 1;
    }
    proof {
        assert(rs.take(rs.len() as int) =~= rs);
    }
    let mut flat_codes: Vec<u16> = Vec::new();
    let mut i: usize = 0;
    while i < results.len()
        invariant
            i <= rs.len(),
            rs == results@,
            flat_codes@ == all_codes_of(rs.take(i as int)),
        decreases rs.len() - i,
    {
        let codes = &results[i].response_codes;
        let ghost base = flat_codes@;
        proof {
            assert(base + codes@.take(0) =~= base);
        }
        let mut j: usize = 0;
        while j < codes.len()
            invariant
                j <= codes@.len(),
                codes == &results@[i as int].response_codes,
                i < rs.len(),
                rs == results@,
                base == all_codes_of(rs.take(i as int)),
                flat_codes@ == base + codes@.take(j as int),
            decreases codes@.len() - j,
        {
            flat_codes.push(codes[j]);
            proof {
                assert(base + codes@.take(j as int + 1) =~= (base + codes@.take(j as int)).push(
                    codes@[j as int],
                ));
            }
            j = j + 1;
        }
        proof {
            assert(codes@.take(codes@.len() as int) =~= codes@);
            assert(rs.take(i as int + 1).drop_last() =~= rs.take(i as int));
            assert(rs.take(i as int + 1).last() == rs[i as int]);
        }
        i = i + 1;
    }
    proof {
        assert(rs.take(rs.len() as int) =~= rs);
    }
    let mut code_strs: Vec<String> = Vec::new();
    proof {
        assert(code_strs.deep_view() =~= Seq::<Seq<char>>::empty());
        assert(flat_codes@.take(0) =~= Seq::<u16>::empty());
    }
    let mut i: usize = 0;
    while i < flat_codes.len()
        invariant
            i <= flat_codes@.len(),
            code_strs.deep_view() == dec_strings_of(flat_codes@.take(i as int)),
        decreases flat_codes@.len() - i,
    {
        let ghost pre = code_strs.deep_view();
        let s = decimal_string(flat_codes[i] as u64);
        code_strs.push(s);
        proof {
            assert(code_strs.deep_view() =~= pre.push(dec_digits(flat_codes@[i as int] as int)));
            assert(flat_codes@.take(i as int + 1).drop_last() =~= flat_codes@.take(i as int));
            assert(flat_codes@.take(i as int + 1).last() == flat_codes@[i as int]);
        }
        i = i + 1;
    }
    proof {
        assert(flat_codes@.take(flat_codes@.len() as int) =~= flat_codes@);
    }
    let error_codes = join_commas(&flat_errs);
    let response_codes = join_commas(&code_strs);
    Option::Some(
        TestResultsRow {
            id,
            test_id,
            second,
            requests: total,
            error_codes,
            response_codes,
            avg_response_time: avg as i64,
        },
    )
}

} // verus!
