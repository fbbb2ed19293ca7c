//! What holds of every ICGEM parse, whatever the file.
use vstd::prelude::*;

use crate::icgem::{
    complete, feed, finish, fresh, header_step, is_first_missing, parse_text, record_step,
    records_wf, resolve, run, tri, tri_size, CoefficientModel, HeaderModel, IcgemError,
    ParserModel, RecordsModel, StateModel, TideSystem,
};
use crate::reading::Reading;

verus! {

proof fn lemma_tri_lex(n1: nat, m1: nat, n2: nat, m2: nat)
    requires
        m1 <= n1,
        m2 <= n2,
        n1 < n2 || (n1 == n2 && m1 < m2),
    ensures
        tri(n1, m1) < tri(n2, m2),
{
    if n1 < n2 {
        let a = n1 + 1;
        assert(n1 * (n1 + 1) / 2 + m1 < a * (a + 1) / 2) by (nonlinear_arith)
            requires
                m1 <= n1,
                a == n1 + 1,
        {
            assert(a * (a + 1) == n1 * (n1 + 1) + 2 * a);
        }
        assert(a * (a + 1) / 2 <= n2 * (n2 + 1) / 2) by (nonlinear_arith)
            requires
                a <= n2,
        {
            assert(a * (a + 1) <= n2 * (n2 + 1));
        }
    }
}

/// Where some slot from degree 2 up was never read, a first such slot, in
/// file order, exists.
proof fn lemma_first_missing_exists(seen: Seq<bool>, cap: nat, n: nat, m: nat)
    requires
        2 <= n <= cap,
        m <= n,
        !seen[tri(n, m) as int],
    ensures
        exists|n1: nat, m1: nat| is_first_missing(seen, cap, n1, m1),
    decreases tri(n, m),
{
    if exists|n2: nat, m2: nat|
        2 <= n2 <= cap && m2 <= n2 && (n2 < n || (n2 == n && m2 < m)) && !seen[tri(
            n2,
            m2,
        ) as int] {
        let (n2, m2) = choose|n2: nat, m2: nat|
            2 <= n2 <= cap && m2 <= n2 && (n2 < n || (n2 == n && m2 < m)) && !seen[tri(
                n2,
                m2,
            ) as int];
        lemma_tri_lex(n2, m2, n, m);
        lemma_first_missing_exists(seen, cap, n2, m2);
    } else {
        assert(is_first_missing(seen, cap, n, m));
    }
}

/// A parse that succeeds hands over one C̄ and one S̄ per `(n, m)` up to its
/// degree; every coefficient from degree 2 up as written in the file; C̄00 as
/// exactly one, whatever the file spelled; a slot that the file left out as
/// exactly zero; and a degree-1 coefficient that the file did write reads as
/// zero.
pub proof fn law_success_is_complete(p: ParserModel)
    requires
        match p.state {
            StateModel::Records(r) => records_wf(r),
            StateModel::Header(_) => true,
        },
    ensures
        finish(p) matches Ok(res) ==> {
            &&& res.c.len() == tri_size(res.max_degree)
            &&& res.s.len() == tri_size(res.max_degree)
            &&& res.c[0] == CoefficientModel::One
            &&& forall|n: nat, m: nat|
                2 <= n <= res.max_degree && m <= n ==> (#[trigger] res.c[tri(n, m) as int]) is Written
                    && res.s[tri(n, m) as int] is Written
            &&& p.state matches StateModel::Records(r) ==> {
                &&& forall|i: int|
                    0 < i < res.c.len() && !r.seen[i] ==> #[trigger] res.c[i] == CoefficientModel::Zero
                        && res.s[i] == CoefficientModel::Zero
                &&& !r.seen[0] ==> res.s[0] == CoefficientModel::Zero
                &&& forall|i: int| 1 <= i <= 2 && i < res.c.len() && r.seen[i] ==> !#[trigger] r.nonzero[i]
            }
        },
{
    match p.state {
        StateModel::Header(_) => {},
        StateModel::Records(r) => {
            if finish(p) is Ok {
                let res = finish(p)->Ok_0;
                assert forall|n: nat, m: nat|
                    2 <= n <= res.max_degree && m <= n implies (#[trigger] res.c[tri(
                    n,
                    m,
                ) as int]) is Written && res.s[tri(n, m) as int] is Written by {
                    crate::icgem::lemma_tri_in_range(n, m, r.cap);
                    if !r.seen[tri(n, m) as int] {
                        lemma_first_missing_exists(r.seen, r.cap, n, m);
                    }
                    assert(tri(n, m) != 0) by {
                        assert(n * (n + 1) >= 6) by (nonlinear_arith)
                            requires
                                n >= 2,
                        ;
                    }
                }
                crate::icgem::lemma_tri_in_range(0, 0, r.cap);
                assert forall|i: int|
                    0 < i < res.c.len() && !r.seen[i] implies #[trigger] res.c[i]
                    == CoefficientModel::Zero && res.s[i] == CoefficientModel::Zero by {
                    assert(r.c[i] is None && r.s[i] is None);
                }
                assert(!r.seen[0] ==> r.s[0] is None);
                assert forall|i: int|
                    1 <= i <= 2 && i < res.c.len() && r.seen[i] implies !#[trigger] r.nonzero[i] by {
                    assert(tri_size(r.cap) > 2 ==> r.cap >= 1);
                }
            }
        },
    }
}

/// A line that raises an error leaves the parser as it was, but for the
/// line count.
pub proof fn law_error_changes_nothing(p: ParserModel, line: Seq<char>, rd: Seq<Reading>)
    ensures
        feed(p, line, rd).1 is Err ==> feed(p, line, rd).0 == (ParserModel {
            line_no: p.line_no + 1,
            ..p
        }),
{
}

/// Once a run has stopped, at an error or at the line that completed the
/// requested set, the lines after it are never examined: adding lines
/// changes nothing.
pub proof fn law_lines_after_the_stop_are_not_read(
    p: ParserModel,
    a: Seq<Seq<char>>,
    ra: Seq<Seq<Reading>>,
    b: Seq<Seq<char>>,
    rb: Seq<Seq<Reading>>,
)
    requires
        a.len() > 0,
        ra.len() == a.len(),
        run(p, a, ra) is Err || (run(p, a, ra) matches Ok(q) && complete(q)),
    ensures
        run(p, a + b, ra + rb) == run(p, a, ra),
    decreases a.len(),
{
    assert((a + b)[0] == a[0]);
    assert((ra + rb)[0] == ra[0]);
    let (p2, r) = feed(p, a[0], ra[0]);
    if r is Ok && !complete(p2) {
        assert((a + b).drop_first() =~= a.drop_first() + b);
        assert((ra + rb).drop_first() =~= ra.drop_first() + rb);
        if a.len() == 1 {
            assert(run(p2, a.drop_first(), ra.drop_first()) == Ok::<ParserModel, IcgemError>(p2));
        } else {
            law_lines_after_the_stop_are_not_read(p2, a.drop_first(), ra.drop_first(), b, rb);
        }
    }
}

/// The record phase never changes the degree the records were sized for.
proof fn lemma_run_keeps_cap(p: ParserModel, ls: Seq<Seq<char>>, rds: Seq<Seq<Reading>>)
    requires
        p.state is Records,
    ensures
        run(p, ls, rds) matches Ok(x) ==> x.state is Records && x.state->Records_0.cap == p.state->Records_0.cap,
    decreases ls.len(),
{
    if ls.len() > 0 {
        let (p2, r) = feed(p, ls[0], rds[0]);
        if r is Ok && !complete(p2) {
            lemma_run_keeps_cap(p2, ls.drop_first(), rds.drop_first());
        }
    }
}

proof fn lemma_run_requested(
    p: ParserModel,
    ls: Seq<Seq<char>>,
    rds: Seq<Seq<Reading>>,
    d: usize,
)
    requires
        p.requested is None,
        run(p, ls, rds) matches Ok(x) && x.state is Records && x.state->Records_0.cap == d,
    ensures
        run(ParserModel { requested: Some(d), ..p }, ls, rds) == Ok::<ParserModel, IcgemError>(
            ParserModel { requested: Some(d), ..run(p, ls, rds)->Ok_0 },
        ),
    decreases ls.len(),
{
    let q = ParserModel { requested: Some(d), ..p };
    if ls.len() > 0 {
        let (p2, r) = feed(p, ls[0], rds[0]);
        let (q2, s) = feed(q, ls[0], rds[0]);
        match p.state {
            StateModel::Records(rec) => {
                assert(q2 == ParserModel { requested: Some(d), ..p2 });
                assert(s == r);
            },
            StateModel::Header(h) => {
                let toks = crate::text::tokens(ls[0]);
                if toks.len() > 0 && toks[0] == "end_of_head"@ {
                    if resolve(h, None) is Ok {
                        let rr = resolve(h, None)->Ok_0;
                        assert(p2.state == StateModel::Records(rr));
                        if !complete(p2) {
                            lemma_run_keeps_cap(p2, ls.drop_first(), rds.drop_first());
                        }
                        assert(rr.cap == d);
                        assert(resolve(h, Some(d)) == resolve(h, None));
                    }
                }
                assert(q2 == ParserModel { requested: Some(d), ..p2 });
                assert(s == r);
            },
        }
        if r is Ok && !complete(p2) {
            lemma_run_requested(p2, ls.drop_first(), rds.drop_first(), d);
        }
    }
}

/// Asking for exactly the degree the file declares reads what no cap
/// reads.
pub proof fn law_cap_at_the_files_degree_reads_the_whole_file(
    text: Seq<char>,
    rds: Seq<Seq<Reading>>,
)
    ensures
        parse_text(text, None, rds) matches Ok(res) ==> res.max_degree <= usize::MAX
            && parse_text(text, Some(res.max_degree as usize), rds) == parse_text(text, None, rds),
{
    let ls = crate::text::lines(text);
    if parse_text(text, None, rds) is Ok {
        let res = parse_text(text, None, rds)->Ok_0;
        let x = run(fresh(None), ls, rds)->Ok_0;
        assert(x.state is Records);
        let d = x.state->Records_0.cap;
        assert(res.max_degree == d);
        assert(d <= usize::MAX) by {
            lemma_run_cap_bounded(fresh(None), ls, rds);
        }
        assert(fresh(Some(d as usize)) == ParserModel { requested: Some(d as usize), ..fresh(None) });
        lemma_run_requested(fresh(None), ls, rds, d as usize);
    }
}

/// A run that reached the records reached them with a cap no larger than
/// [`crate::icgem::MAX_DEGREE`].
proof fn lemma_run_cap_bounded(p: ParserModel, ls: Seq<Seq<char>>, rds: Seq<Seq<Reading>>)
    requires
        p.state is Records ==> p.state->Records_0.cap <= crate::icgem::MAX_DEGREE,
    ensures
        run(p, ls, rds) matches Ok(x) ==> (x.state is Records ==> x.state->Records_0.cap
            <= crate::icgem::MAX_DEGREE),
    decreases ls.len(),
{
    if ls.len() > 0 {
        let (p2, r) = feed(p, ls[0], rds[0]);
        if r is Ok && !complete(p2) {
            lemma_run_cap_bounded(p2, ls.drop_first(), rds.drop_first());
        }
    }
}

/// Completion waits for the degree-0 and degree-1 records too, so their
/// checks still see them: a complete parser has read C̄00 and, from a cap of
/// one up, both degree-1 records.
pub proof fn law_completion_waits_for_degrees_zero_and_one(p: ParserModel)
    requires
        complete(p),
        p.state matches StateModel::Records(r) && records_wf(r),
    ensures
        p.state matches StateModel::Records(r) && r.seen[0] && (r.cap >= 1 ==> r.seen[1]
            && r.seen[2]),
{
    let r = p.state->Records_0;
    crate::icgem::lemma_tri_in_range(0, 0, r.cap);
    if r.cap >= 1 {
        crate::icgem::lemma_tri_in_range(1, 1, r.cap);
        assert(r.seen[1]);
    }
}

/// Once every slot up to the cap has been read, a line that does not fail
/// changes nothing but the line count, so a caller that stops feeding there
/// loses nothing: what [`finish`] hands over is the same.
pub proof fn law_after_completion_a_line_adds_nothing(p: ParserModel, line: Seq<char>, rd: Seq<Reading>)
    requires
        complete(p),
        p.state matches StateModel::Records(r) && records_wf(r),
    ensures
        feed(p, line, rd).1 is Ok ==> feed(p, line, rd).0 == (ParserModel {
            line_no: p.line_no + 1,
            ..p
        }) && finish(feed(p, line, rd).0) == finish(p),
{
    let r = p.state->Records_0;
    let toks = crate::text::tokens(line);
    if toks.len() > 0 && toks[0] == "gfc"@ {
        let fields = toks.subrange(1, toks.len() as int);
        if fields.len() == 4 + r.error_columns && crate::text::parse_usize(fields[0]) is Some
            && crate::text::parse_usize(fields[1]) is Some {
            let n = crate::text::parse_usize(fields[0])->0 as nat;
            let m = crate::text::parse_usize(fields[1])->0 as nat;
            if m <= n && n <= r.cap {
                crate::icgem::lemma_tri_in_range(n, m, r.cap);
                assert(r.seen[tri(n, m) as int]);
            }
        }
    }
}

/// The `max_degree` the header holds when its `end_of_head` line is read,
/// reading `ls` from `p`; nothing where no such line is reached.
pub open spec fn degree_at_head(p: ParserModel, ls: Seq<Seq<char>>, rds: Seq<Seq<Reading>>) -> Option<
    usize,
>
    decreases ls.len(),
{
    if ls.len() == 0 {
        None
    } else {
        match p.state {
            StateModel::Records(_) => None,
            StateModel::Header(h) => {
                let toks = crate::text::tokens(ls[0]);
                if toks.len() > 0 && toks[0] == "end_of_head"@ {
                    h.max_degree
                } else {
                    let (p2, r) = feed(p, ls[0], rds[0]);
                    if r is Err {
                        None
                    } else {
                        degree_at_head(p2, ls.drop_first(), rds.drop_first())
                    }
                }
            },
        }
    }
}

/// The `max_degree` a file's header declares.
pub open spec fn declared_degree(text: Seq<char>, rds: Seq<Seq<Reading>>) -> Option<usize> {
    degree_at_head(fresh(None), crate::text::lines(text), rds)
}

/// A run with another request, once the records are being read, runs as
/// the first does.
proof fn lemma_records_ignore_the_request(
    p: ParserModel,
    ls: Seq<Seq<char>>,
    rds: Seq<Seq<Reading>>,
    x: Option<usize>,
)
    requires
        p.state is Records,
    ensures
        run(ParserModel { requested: x, ..p }, ls, rds) == (match run(p, ls, rds) {
            Ok(r) => Ok(ParserModel { requested: x, ..r }),
            Err(e) => Err(e),
        }),
    decreases ls.len(),
{
    if ls.len() > 0 {
        let (p2, r) = feed(p, ls[0], rds[0]);
        let q = ParserModel { requested: x, ..p };
        assert(feed(q, ls[0], rds[0]) == (ParserModel { requested: x, ..p2 }, r));
        if r is Ok && !complete(p2) {
            lemma_records_ignore_the_request(p2, ls.drop_first(), rds.drop_first(), x);
        }
    }
}

/// From the header on, asking for the degree the header declares runs as
/// asking for nothing.
proof fn lemma_head_ignores_the_declared_degree(
    p: ParserModel,
    ls: Seq<Seq<char>>,
    rds: Seq<Seq<Reading>>,
    d: usize,
)
    requires
        p.requested is None,
        p.state is Header,
        degree_at_head(p, ls, rds) is None || degree_at_head(p, ls, rds) == Some(d),
    ensures
        run(ParserModel { requested: Some(d), ..p }, ls, rds) == (match run(p, ls, rds) {
            Ok(r) => Ok(ParserModel { requested: Some(d), ..r }),
            Err(e) => Err(e),
        }),
    decreases ls.len(),
{
    if ls.len() > 0 {
        let q = ParserModel { requested: Some(d), ..p };
        let h = p.state->Header_0;
        let (p2, r) = feed(p, ls[0], rds[0]);
        let toks = crate::text::tokens(ls[0]);
        if toks.len() > 0 && toks[0] == "end_of_head"@ {
            assert(resolve(h, Some(d)) == resolve(h, None));
        }
        assert(feed(q, ls[0], rds[0]) == (ParserModel { requested: Some(d), ..p2 }, r));
        if r is Ok && !complete(p2) {
            match p2.state {
                StateModel::Records(_) => {
                    lemma_records_ignore_the_request(p2, ls.drop_first(), rds.drop_first(), Some(d));
                },
                StateModel::Header(_) => {
                    lemma_head_ignores_the_declared_degree(p2, ls.drop_first(), rds.drop_first(), d);
                },
            }
        }
    }
}

/// Asking for the degree the header declares gives what asking for nothing
/// gives, error or not; and where the header declares none (or never ends),
/// any request gives what asking for nothing gives.
pub proof fn law_a_cap_at_the_declared_degree_changes_nothing(
    text: Seq<char>,
    rds: Seq<Seq<Reading>>,
    d: usize,
)
    requires
        declared_degree(text, rds) is None || declared_degree(text, rds) == Some(d),
    ensures
        parse_text(text, Some(d), rds) == parse_text(text, None, rds),
{
    let ls = crate::text::lines(text);
    assert(fresh(Some(d)) == ParserModel { requested: Some(d), ..fresh(None) });
    lemma_head_ignores_the_declared_degree(fresh(None), ls, rds, d);
    match run(fresh(None), ls, rds) {
        Ok(r) => {
            assert(finish(ParserModel { requested: Some(d), ..r }) == finish(r));
        },
        Err(_) => {},
    }
}

/// The `errors` declaration decides how many σ columns every record carries:
/// none for `no` or no declaration, two for `calibrated` or `formal`, four
/// for `calibrated_and_formal`; any other declaration is refused.
pub proof fn law_sigma_columns_follow_the_errors_declaration(h: HeaderModel, requested: Option<usize>)
    ensures
        resolve(h, requested) matches Ok(r) ==> match h.errors {
            None => r.error_columns == 0,
            Some(v) => {
                ||| (v == "no"@ && r.error_columns == 0)
                ||| ((v == "calibrated"@ || v == "formal"@) && r.error_columns == 2)
                ||| (v == "calibrated_and_formal"@ && r.error_columns == 4)
            },
        },
{
}

/// A `gfc` record with the degree and order, the two coefficients that read
/// as finite numbers, and as many σ columns as the header declares, for a
/// slot up to the cap not read before, is accepted and stored: the slot is
/// marked read and holds the two coefficients as written.
pub proof fn law_a_well_formed_record_is_stored(
    r: RecordsModel,
    toks: Seq<Seq<char>>,
    rd: Seq<Reading>,
    line_no: nat,
    n: usize,
    m: usize,
)
    requires
        records_wf(r),
        toks.len() == 5 + r.error_columns,
        rd.len() == toks.len(),
        toks[0] == "gfc"@,
        crate::text::parse_usize(toks[1]) == Some(n),
        crate::text::parse_usize(toks[2]) == Some(m),
        m <= n <= r.cap,
        rd[3] matches Reading::Number(c, _) && c.class.finite(),
        rd[4] matches Reading::Number(s, _) && s.class.finite(),
        !r.seen[tri(n as nat, m as nat) as int],
    ensures
        record_step(r, toks, rd, line_no) matches Ok((r2, slot)) && slot == Some(
            tri(n as nat, m as nat),
        ) && r2.seen[tri(n as nat, m as nat) as int] && r2.c[tri(n as nat, m as nat) as int]
            == Some(toks[3]) && r2.s[tri(n as nat, m as nat) as int] == Some(toks[4])
            && r2.slots_seen == r.slots_seen + 1,
{
    crate::icgem::lemma_tri_in_range(n as nat, m as nat, r.cap);
    let fields = toks.subrange(1, toks.len() as int);
    assert(fields[0] == toks[1] && fields[1] == toks[2]);
    assert(fields[2] == toks[3] && fields[3] == toks[4]);
}

/// The tide system a header line declares is recorded as its value spells
/// it: `tide_free`, `zero_tide` and `mean_tide` as those, anything else (or
/// nothing) as unknown.
pub proof fn law_tide_system_is_recorded(
    h: HeaderModel,
    line: Seq<char>,
    rd: Seq<Reading>,
    requested: Option<usize>,
)
    requires
        crate::text::tokens(line).len() >= 1,
        crate::text::tokens(line)[0] == "tide_system"@,
        h.tide_system is None,
    ensures
        header_step(h, line, rd, requested) == Ok::<Result<HeaderModel, RecordsModel>, IcgemError>(
            Ok(
                HeaderModel {
                    tide_system: Some(
                        {
                            let toks = crate::text::tokens(line);
                            if toks.len() < 2 {
                                TideSystem::Unknown
                            } else if toks[1] == "tide_free"@ {
                                TideSystem::TideFree
                            } else if toks[1] == "zero_tide"@ {
                                TideSystem::ZeroTide
                            } else if toks[1] == "mean_tide"@ {
                                TideSystem::MeanTide
                            } else {
                                TideSystem::Unknown
                            }
                        },
                    ),
                    ..h
                },
            ),
        ),
{
    reveal_strlit("tide_system");
    reveal_strlit("end_of_head");
    reveal_strlit("product_type");
    reveal_strlit("modelname");
    reveal_strlit("radius");
    reveal_strlit("max_degree");
    reveal_strlit("norm");
    reveal_strlit("errors");
    let key = crate::text::tokens(line)[0];
    assert(key[0] == 't');
    assert(key != "end_of_head"@ && key != "product_type"@ && key != "modelname"@);
    assert(key != "radius"@ && key != "max_degree"@ && key != "norm"@ && key != "errors"@);
}

/// The recorded tide system is what a parse hands over: the header's, or
/// unknown where it declares none.
pub proof fn law_the_recorded_tide_system_is_handed_over(
    h: HeaderModel,
    requested: Option<usize>,
    p: ParserModel,
)
    ensures
        resolve(h, requested) matches Ok(r) ==> r.tide_system == (match h.tide_system {
            Some(t) => t,
            None => TideSystem::Unknown,
        }),
        p.state matches StateModel::Records(r) ==> (finish(p) matches Ok(res)
            ==> res.tide_system == r.tide_system),
{
}

/// The header values the parser interprets are stored under their own
/// keywords: the value token of a `product_type`, `norm` or `errors` line as
/// written, the `max_degree` as the integer it spells, the `radius` and
/// `earth_gravity_constant` as written with their readings; and a second
/// declaration of one of them is refused.
pub proof fn law_a_header_value_is_stored_under_its_key(
    h: HeaderModel,
    line: Seq<char>,
    rd: Seq<Reading>,
    requested: Option<usize>,
)
    requires
        crate::text::tokens(line).len() >= 2,
        rd.len() == crate::text::tokens(line).len(),
    ensures
        ({
            let k = crate::text::tokens(line)[0];
            let v = crate::text::tokens(line)[1];
            let step = header_step(h, line, rd, requested);
            &&& (k == "product_type"@ && h.product_type is None) ==> step == Ok::<
                Result<HeaderModel, RecordsModel>,
                IcgemError,
            >(Ok(HeaderModel { product_type: Some(v), ..h }))
            &&& (k == "norm"@ && h.norm is None) ==> step == Ok::<
                Result<HeaderModel, RecordsModel>,
                IcgemError,
            >(Ok(HeaderModel { norm: Some(v), ..h }))
            &&& (k == "norm"@ && h.norm is Some) ==> step == Err::<
                Result<HeaderModel, RecordsModel>,
                IcgemError,
            >(IcgemError::DuplicateHeader("norm"@))
            &&& (k == "errors"@ && h.errors is None) ==> step == Ok::<
                Result<HeaderModel, RecordsModel>,
                IcgemError,
            >(Ok(HeaderModel { errors: Some(v), ..h }))
            &&& (k == "max_degree"@ && h.max_degree is None && crate::text::parse_usize(v) is Some)
                ==> step == Ok::<Result<HeaderModel, RecordsModel>, IcgemError>(
                Ok(HeaderModel { max_degree: crate::text::parse_usize(v), ..h }),
            )
            &&& (k == "radius"@ && h.radius is None && rd[1] is Number) ==> step == Ok::<
                Result<HeaderModel, RecordsModel>,
                IcgemError,
            >(Ok(HeaderModel { radius: Some((v, rd[1]->0, rd[1]->1@)), ..h }))
            &&& (k == "radius"@ && h.radius is Some && rd[1] is Number) ==> step == Err::<
                Result<HeaderModel, RecordsModel>,
                IcgemError,
            >(IcgemError::DuplicateHeader("radius"@))
            &&& (k == "earth_gravity_constant"@ && h.gm is None && rd[1] is Number) ==> step
                == Ok::<Result<HeaderModel, RecordsModel>, IcgemError>(
                Ok(HeaderModel { gm: Some((v, rd[1]->0, rd[1]->1@)), ..h }),
            )
        }),
{
    reveal_strlit("end_of_head");
    reveal_strlit("product_type");
    reveal_strlit("modelname");
    reveal_strlit("radius");
    reveal_strlit("max_degree");
    reveal_strlit("norm");
    reveal_strlit("errors");
    reveal_strlit("tide_system");
    reveal_strlit("gravity_constant");
    reveal_strlit("earth_gravity_constant");
    let k = crate::text::tokens(line)[0];
    if k == "earth_gravity_constant"@ {
        assert(k.subrange(k.len() - 16, k.len() as int) =~= "gravity_constant"@);
        assert(k[0] == 'e' && k.len() == 22);
    }
    if k == "product_type"@ {
        assert(k[0] == 'p');
    }
    if k == "norm"@ {
        assert(k[0] == 'n' && k.len() == 4);
    }
    if k == "errors"@ {
        assert(k[0] == 'e' && k.len() == 6);
    }
    if k == "max_degree"@ {
        assert(k[0] == 'm' && k.len() == 10);
    }
    if k == "radius"@ {
        assert(k[0] == 'r');
    }
}

/// A header resolves only when it names a fully normalized gravity field
/// (or no product), declares both constants as finite positive numbers and a
/// `max_degree` within the supported limit, and the caller asks for no more
/// than that degree; the records are then sized for the requested degree,
/// or the declared one, and carry the declared constants.
pub proof fn law_a_resolved_header_is_valid(h: HeaderModel, requested: Option<usize>)
    ensures
        resolve(h, requested) matches Ok(r) ==> {
            &&& h.product_type is None || h.product_type == Some("gravity_field"@)
            &&& h.norm == Some("fully_normalized"@)
            &&& h.gm is Some && h.gm.unwrap().1.class == crate::reading::FloatClass::Positive
            &&& h.radius is Some && h.radius.unwrap().1.class == crate::reading::FloatClass::Positive
            &&& r.gm == h.gm->0
            &&& r.radius == h.radius->0
            &&& h.max_degree == Some(r.file_max_degree as usize)
            &&& r.file_max_degree <= 2190
            &&& r.cap == (match requested {
                Some(d) => d as nat,
                None => r.file_max_degree,
            })
            &&& r.cap <= r.file_max_degree
            &&& r.model_name == h.model_name
            &&& r.seen.len() == tri_size(r.cap)
            &&& forall|i: int| 0 <= i < r.seen.len() ==> !#[trigger] r.seen[i]
        },
{
}

/// What a parse hands over is what the records hold: the two constants as
/// declared, the degree the records were sized for, and one C̄ and one S̄ per
/// slot.
pub proof fn law_finish_hands_over_the_records(p: ParserModel)
    ensures
        p.state matches StateModel::Records(r) ==> (finish(p) matches Ok(res) ==> {
            &&& res.gm == r.gm.0
            &&& res.radius == r.radius.0
            &&& res.max_degree == r.cap
            &&& res.model_name == r.model_name
            &&& res.c.len() == r.c.len()
            &&& res.s.len() == r.s.len()
        }),
{
}

} // verus!
