use vstd::prelude::*;
use crate::authz::{
    ambient_facts, blocks_authorize, blocks_authorize_exec, blocks_view, checks_view, make_ambient,
    preds_view, Block, BlockView, Check, CheckView, PredView, Predicate,
};
use crate::http::{copy_range, find_byte, find_byte_exec, lemma_find_byte_bounds};

verus! {

// The printed form of a verified token block is a sequence of statements,
// each terminated by `;` and a line feed. A statement is either a fact —
// a ground predicate such as `right("event", "view")` — or a caveat,
// `check if` followed by the predicates the caveat requires. Everything
// beyond this closed language (variables, expressions, rules, disjunctions,
// non-string terms) is unparsable, and an unparsable block denies.
/// A name byte: an ASCII letter, digit or underscore.
pub open spec fn is_ident_byte(b: u8) -> bool {
    (0x30 <= b <= 0x39) || (0x41 <= b <= 0x5a) || (0x61 <= b <= 0x7a) || b == 0x5f
}

/// The first position at or after `i` holding a byte that is not a name byte.
pub open spec fn ident_end(s: Seq<u8>, i: int) -> int
    decreases s.len() - i,
    when 0 <= i
{
    if i >= s.len() {
        s.len() as int
    } else if is_ident_byte(s[i]) {
        ident_end(s, i + 1)
    } else {
        i
    }
}

pub proof fn lemma_ident_end_bounds(s: Seq<u8>, i: int)
    requires
        0 <= i <= s.len(),
    ensures
        i <= ident_end(s, i) <= s.len(),
    decreases s.len() - i,
{
    if i < s.len() && is_ident_byte(s[i]) {
        lemma_ident_end_bounds(s, i + 1);
    }
}

fn ident_end_exec(s: &[u8], i: usize) -> (r: usize)
    requires
        i <= s@.len(),
    ensures
        r == ident_end(s@, i as int),
        i <= r <= s@.len(),
{
    let mut j: usize = i;
    while j < s.len() && ((0x30 <= s[j] && s[j] <= 0x39) || (0x41 <= s[j] && s[j] <= 0x5a) || (0x61
        <= s[j] && s[j] <= 0x7a) || s[j] == 0x5f)
        invariant
            i <= j <= s@.len(),
            ident_end(s@, i as int) == ident_end(s@, j as int),
        decreases s@.len() - j,
    {
        j += 1;
    }
    j
}

/// One term: a quoted string holding no quote byte.
pub open spec fn parse_term(s: Seq<u8>, i: int) -> Option<(Seq<u8>, int)> {
    if 0 <= i < s.len() && s[i] == 0x22 {
        match find_byte(s, i + 1, 0x22) {
            None => None,
            Some(q) => Some((s.subrange(i + 1, q), q + 1)),
        }
    } else {
        None
    }
}

pub proof fn lemma_parse_term_bounds(s: Seq<u8>, i: int)
    ensures
        parse_term(s, i) matches Some(r) ==> i + 2 <= r.1 <= s.len(),
{
    if 0 <= i < s.len() && s[i] == 0x22 {
        lemma_find_byte_bounds(s, i + 1, 0x22);
    }
}

fn parse_term_exec(s: &[u8], i: usize) -> (r: Option<(Vec<u8>, usize)>)
    requires
        i <= s@.len(),
    ensures
        match r {
            Some(t) => parse_term(s@, i as int) matches Some(tv) && t.0@ == tv.0 && t.1 as int
                == tv.1 && i + 2 <= t.1 <= s@.len(),
            None => parse_term(s@, i as int) is None,
        },
{
    if i >= s.len() {
        return None;
    }
    if s[i] != 0x22 {
        return None;
    }
    match find_byte_exec(s, i + 1, 0x22) {
        None => None,
        Some(q) => {
            let content = copy_range(s, i + 1, q);
            Some((content, q + 1))
        },
    }
}

/// The terms after one term of a list: either the closing parenthesis, or a
/// comma, a space and a further term.
pub open spec fn parse_terms_rest(s: Seq<u8>, i: int) -> Option<(Seq<Seq<u8>>, int)>
    decreases s.len() - i,
    when 0 <= i
    via parse_terms_rest_dec
{
    if i >= s.len() {
        None
    } else if s[i] == 0x29 {
        Some((Seq::empty(), i + 1))
    } else if i + 2 <= s.len() && s[i] == 0x2c && s[i + 1] == 0x20 {
        match parse_term(s, i + 2) {
            None => None,
            Some(t) => match parse_terms_rest(s, t.1) {
                None => None,
                Some(r) => Some((seq![t.0] + r.0, r.1)),
            },
        }
    } else {
        None
    }
}

#[via_fn]
proof fn parse_terms_rest_dec(s: Seq<u8>, i: int) {
    lemma_parse_term_bounds(s, i + 2);
}

pub proof fn lemma_parse_terms_rest_bounds(s: Seq<u8>, i: int)
    requires
        0 <= i,
    ensures
        parse_terms_rest(s, i) matches Some(r) ==> i < r.1 <= s.len(),
    decreases s.len() - i,
{
    if i < s.len() && s[i] != 0x29 && i + 2 <= s.len() && s[i] == 0x2c && s[i + 1] == 0x20 {
        lemma_parse_term_bounds(s, i + 2);
        if parse_term(s, i + 2) is Some {
            lemma_parse_terms_rest_bounds(s, parse_term(s, i + 2).unwrap().1);
        }
    }
}

/// A whole term list after the opening parenthesis, up to and including the
/// closing one.
pub open spec fn parse_term_list(s: Seq<u8>, i: int) -> Option<(Seq<Seq<u8>>, int)> {
    if 0 <= i < s.len() {
        if s[i] == 0x29 {
            Some((Seq::empty(), i + 1))
        } else {
            match parse_term(s, i) {
                None => None,
                Some(t) => match parse_terms_rest(s, t.1) {
                    None => None,
                    Some(r) => Some((seq![t.0] + r.0, r.1)),
                },
            }
        }
    } else {
        None
    }
}

pub proof fn lemma_parse_term_list_bounds(s: Seq<u8>, i: int)
    requires
        0 <= i,
    ensures
        parse_term_list(s, i) matches Some(r) ==> i < r.1 <= s.len(),
{
    if 0 <= i < s.len() && s[i] != 0x29 {
        lemma_parse_term_bounds(s, i);
        if parse_term(s, i) is Some {
            lemma_parse_terms_rest_bounds(s, parse_term(s, i).unwrap().1);
        }
    }
}

fn parse_terms_rest_exec(s: &[u8], i: usize) -> (r: Option<(Vec<Vec<u8>>, usize)>)
    requires
        i <= s@.len(),
    ensures
        match r {
            Some(t) => parse_terms_rest(s@, i as int) matches Some(tv) && t.0@.map_values(
                |v: Vec<u8>| v@,
            ) == tv.0 && t.1 as int == tv.1 && i < t.1 <= s@.len(),
            None => parse_terms_rest(s@, i as int) is None,
        },
    decreases s@.len() - i,
{
    if i >= s.len() {
        return None;
    }
    if s[i] == 0x29 {
        proof {
            assert(Seq::<Vec<u8>>::empty().map_values(|v: Vec<u8>| v@) =~= Seq::<Seq<u8>>::empty());
        }
        return Some((Vec::new(), i + 1));
    }
    if s.len() - i >= 2 && s[i] == 0x2c && s[i + 1] == 0x20 {
        match parse_term_exec(s, i + 2) {
            None => None,
            Some((t, j)) => {
                match parse_terms_rest_exec(s, j) {
                    None => None,
                    Some((mut ts, k)) => {
                        let ghost before = ts@;
                        ts.insert(0, t);
                        proof {
                            let f = |v: Vec<u8>| v@;
                            assert(ts@.map_values(f) =~= seq![t@] + before.map_values(f));
                        }
                        Some((ts, k))
                    },
                }
            },
        }
    } else {
        None
    }
}

fn parse_term_list_exec(s: &[u8], i: usize) -> (r: Option<(Vec<Vec<u8>>, usize)>)
    requires
        i <= s@.len(),
    ensures
        match r {
            Some(t) => parse_term_list(s@, i as int) matches Some(tv) && t.0@.map_values(
                |v: Vec<u8>| v@,
            ) == tv.0 && t.1 as int == tv.1 && i < t.1 <= s@.len(),
            None => parse_term_list(s@, i as int) is None,
        },
{
    if i >= s.len() {
        return None;
    }
    if s[i] == 0x29 {
        proof {
            assert(Seq::<Vec<u8>>::empty().map_values(|v: Vec<u8>| v@) =~= Seq::<Seq<u8>>::empty());
        }
        return Some((Vec::new(), i + 1));
    }
    match parse_term_exec(s, i) {
        None => None,
        Some((t, j)) => {
            match parse_terms_rest_exec(s, j) {
                None => None,
                Some((mut ts, k)) => {
                    let ghost before = ts@;
                    ts.insert(0, t);
                    proof {
                        let f = |v: Vec<u8>| v@;
                        assert(ts@.map_values(f) =~= seq![t@] + before.map_values(f));
                    }
                    Some((ts, k))
                },
            }
        },
    }
}

/// One ground predicate: a nonempty name, an opening parenthesis, its term
/// list and the closing parenthesis.
pub open spec fn parse_pred(s: Seq<u8>, i: int) -> Option<(PredView, int)> {
    let e = ident_end(s, i);
    if 0 <= i < e && e < s.len() && s[e] == 0x28 {
        match parse_term_list(s, e + 1) {
            None => None,
            Some(r) => Some((PredView { name: s.subrange(i, e), terms: r.0 }, r.1)),
        }
    } else {
        None
    }
}

pub proof fn lemma_parse_pred_bounds(s: Seq<u8>, i: int)
    requires
        0 <= i <= s.len(),
    ensures
        parse_pred(s, i) matches Some(r) ==> i < r.1 <= s.len(),
{
    lemma_ident_end_bounds(s, i);
    let e = ident_end(s, i);
    if 0 <= i < e && e < s.len() && s[e] == 0x28 {
        lemma_parse_term_list_bounds(s, e + 1);
    }
}

fn parse_pred_exec(s: &[u8], i: usize) -> (r: Option<(Predicate, usize)>)
    requires
        i <= s@.len(),
    ensures
        match r {
            Some(p) => parse_pred(s@, i as int) matches Some(pv) && p.0@ == pv.0 && p.1 as int
                == pv.1 && i < p.1 <= s@.len(),
            None => parse_pred(s@, i as int) is None,
        },
{
    let e = ident_end_exec(s, i);
    if i >= e {
        return None;
    }
    if e >= s.len() {
        return None;
    }
    if s[e] != 0x28 {
        return None;
    }
    match parse_term_list_exec(s, e + 1) {
        None => None,
        Some((ts, j)) => {
            let name = copy_range(s, i, e);
            let p = Predicate { name, terms: ts };
            proof {
                let pv = parse_pred(s@, i as int).unwrap();
                assert(p@.terms =~= pv.0.terms);
            }
            Some((p, j))
        },
    }
}

/// The predicates after the first one of a caveat body: as long as a comma
/// and a space follow, a further predicate is required.
pub open spec fn parse_preds_rest(s: Seq<u8>, i: int) -> Option<(Seq<PredView>, int)>
    decreases s.len() - i,
    when 0 <= i <= s.len()
    via parse_preds_rest_dec
{
    if i + 2 <= s.len() && s[i] == 0x2c && s[i + 1] == 0x20 {
        match parse_pred(s, i + 2) {
            None => None,
            Some(p) => match parse_preds_rest(s, p.1) {
                None => None,
                Some(r) => Some((seq![p.0] + r.0, r.1)),
            },
        }
    } else {
        Some((Seq::empty(), i))
    }
}

#[via_fn]
proof fn parse_preds_rest_dec(s: Seq<u8>, i: int) {
    if i + 2 <= s.len() {
        lemma_parse_pred_bounds(s, i + 2);
    }
}

pub proof fn lemma_parse_preds_rest_bounds(s: Seq<u8>, i: int)
    requires
        0 <= i <= s.len(),
    ensures
        parse_preds_rest(s, i) matches Some(r) ==> i <= r.1 <= s.len(),
    decreases s.len() - i,
{
    if i + 2 <= s.len() && s[i] == 0x2c && s[i + 1] == 0x20 {
        lemma_parse_pred_bounds(s, i + 2);
        if parse_pred(s, i + 2) is Some {
            lemma_parse_preds_rest_bounds(s, parse_pred(s, i + 2).unwrap().1);
        }
    }
}

fn parse_preds_rest_exec(s: &[u8], i: usize) -> (r: Option<(Vec<Predicate>, usize)>)
    requires
        i <= s@.len(),
    ensures
        match r {
            Some(t) => parse_preds_rest(s@, i as int) matches Some(tv) && preds_view(t.0@) == tv.0
                && t.1 as int == tv.1 && i <= t.1 <= s@.len(),
            None => parse_preds_rest(s@, i as int) is None,
        },
    decreases s@.len() - i,
{
    if s.len() - i >= 2 && s[i] == 0x2c && s[i + 1] == 0x20 {
        match parse_pred_exec(s, i + 2) {
            None => None,
            Some((p, j)) => {
                match parse_preds_rest_exec(s, j) {
                    None => None,
                    Some((mut ps, k)) => {
                        let ghost before = ps@;
                        let ghost pv = p@;
                        ps.insert(0, p);
                        proof {
                            assert(preds_view(ps@) =~= seq![pv] + preds_view(before));
                        }
                        Some((ps, k))
                    },
                }
            },
        }
    } else {
        proof {
            assert(preds_view(Seq::<Predicate>::empty()) =~= Seq::<PredView>::empty());
        }
        Some((Vec::new(), i))
    }
}

/// The bytes of `check if `, which introduce a caveat statement.
pub open spec fn check_prefix() -> Seq<u8> {
    seq![0x63u8, 0x68, 0x65, 0x63, 0x6b, 0x20, 0x69, 0x66, 0x20]
}

/// Whether the prefix `p` stands at position `i` of `s`.
pub open spec fn starts_with(s: Seq<u8>, i: int, p: Seq<u8>) -> bool {
    0 <= i && i + p.len() <= s.len() && s.subrange(i, i + p.len()) == p
}

fn has_check_prefix(s: &[u8], i: usize) -> (r: bool)
    requires
        i <= s@.len(),
    ensures
        r == starts_with(s@, i as int, check_prefix()),
{
    if s.len() - i < 9 {
        return false;
    }
    let r = s[i] == 0x63 && s[i + 1] == 0x68 && s[i + 2] == 0x65 && s[i + 3] == 0x63 && s[i + 4]
        == 0x6b && s[i + 5] == 0x20 && s[i + 6] == 0x69 && s[i + 7] == 0x66 && s[i + 8] == 0x20;
    proof {
        if r {
            assert(s@.subrange(i as int, i as int + 9) =~= check_prefix());
        } else {
            if s@.subrange(i as int, i as int + 9) == check_prefix() {
                assert(forall|k: int|
                    0 <= k < 9 ==> s@.subrange(i as int, i as int + 9)[k] == check_prefix()[k]);
                assert(false);
            }
        }
    }
    r
}

/// Whether a statement terminator — `;` and a line feed — stands at `i`.
pub open spec fn stmt_end(s: Seq<u8>, i: int) -> bool {
    0 <= i && i + 2 <= s.len() && s[i] == 0x3b && s[i + 1] == 0x0a
}

/// The statements of one block source, from position `i` to the end of the
/// input: facts and caveats in any order, each closed by `;` and a line feed.
pub open spec fn parse_stmts(s: Seq<u8>, i: int) -> Option<(Seq<PredView>, Seq<CheckView>)>
    decreases s.len() - i,
    when 0 <= i <= s.len()
    via parse_stmts_dec
{
    if i >= s.len() {
        Some((Seq::empty(), Seq::empty()))
    } else if starts_with(s, i, check_prefix()) {
        match parse_pred(s, i + 9) {
            None => None,
            Some(p) => match parse_preds_rest(s, p.1) {
                None => None,
                Some(r) => {
                    if stmt_end(s, r.1) {
                        match parse_stmts(s, r.1 + 2) {
                            None => None,
                            Some(rest) => Some(
                                (rest.0, seq![CheckView { body: seq![p.0] + r.0 }] + rest.1),
                            ),
                        }
                    } else {
                        None
                    }
                },
            },
        }
    } else {
        match parse_pred(s, i) {
            None => None,
            Some(p) => {
                if stmt_end(s, p.1) {
                    match parse_stmts(s, p.1 + 2) {
                        None => None,
                        Some(rest) => Some((seq![p.0] + rest.0, rest.1)),
                    }
                } else {
                    None
                }
            },
        }
    }
}

#[via_fn]
proof fn parse_stmts_dec(s: Seq<u8>, i: int) {
    if 0 <= i < s.len() {
        if starts_with(s, i, check_prefix()) {
            assert(check_prefix().len() == 9);
            lemma_parse_pred_bounds(s, i + 9);
            if parse_pred(s, i + 9) is Some {
                lemma_parse_preds_rest_bounds(s, parse_pred(s, i + 9).unwrap().1);
            }
        } else {
            lemma_parse_pred_bounds(s, i);
        }
    }
}

fn parse_stmts_exec(s: &[u8], i: usize) -> (r: Option<(Vec<Predicate>, Vec<Check>)>)
    requires
        i <= s@.len(),
    ensures
        match r {
            Some(t) => parse_stmts(s@, i as int) matches Some(tv) && preds_view(t.0@) == tv.0
                && checks_view(t.1@) == tv.1,
            None => parse_stmts(s@, i as int) is None,
        },
    decreases s@.len() - i,
{
    if i >= s.len() {
        proof {
            assert(preds_view(Seq::<Predicate>::empty()) =~= Seq::<PredView>::empty());
            assert(checks_view(Seq::<Check>::empty()) =~= Seq::<CheckView>::empty());
        }
        return Some((Vec::new(), Vec::new()));
    }
    if has_check_prefix(s, i) {
        match parse_pred_exec(s, i + 9) {
            None => None,
            Some((p, j)) => {
                match parse_preds_rest_exec(s, j) {
                    None => None,
                    Some((mut ps, k)) => {
                        if s.len() - k >= 2 && s[k] == 0x3b && s[k + 1] == 0x0a {
                            match parse_stmts_exec(s, k + 2) {
                                None => None,
                                Some((facts, mut checks)) => {
                                    let ghost pv = p@;
                                    let ghost psv = preds_view(ps@);
                                    let ghost restv = checks_view(checks@);
                                    ps.insert(0, p);
                                    let c = Check { body: ps };
                                    checks.insert(0, c);
                                    proof {
                                        assert(c@.body =~= seq![pv] + psv);
                                        assert(checks_view(checks@) =~= seq![
                                            CheckView { body: seq![pv] + psv },
                                        ] + restv);
                                    }
                                    Some((facts, checks))
                                },
                            }
                        } else {
                            None
                        }
                    },
                }
            },
        }
    } else {
        match parse_pred_exec(s, i) {
            None => None,
            Some((p, j)) => {
                if s.len() - j >= 2 && s[j] == 0x3b && s[j + 1] == 0x0a {
                    match parse_stmts_exec(s, j + 2) {
                        None => None,
                        Some((mut facts, checks)) => {
                            let ghost pv = p@;
                            let ghost factsv = preds_view(facts@);
                            facts.insert(0, p);
                            proof {
                                assert(preds_view(facts@) =~= seq![pv] + factsv);
                            }
                            Some((facts, checks))
                        },
                    }
                } else {
                    None
                }
            },
        }
    }
}

/// One block of a verified token, parsed from its printed source. A source
/// holding anything outside the closed rule language has no parse.
pub open spec fn parse_block_src(s: Seq<u8>) -> Option<BlockView> {
    match parse_stmts(s, 0) {
        None => None,
        Some(r) => Some(BlockView { facts: r.0, checks: r.1 }),
    }
}

/// Parses one block source into its facts and caveats.
pub fn parse_block_source(s: &[u8]) -> (r: Option<Block>)
    ensures
        match r {
            Some(b) => parse_block_src(s@) == Some(b@),
            None => parse_block_src(s@) is None,
        },
{
    match parse_stmts_exec(s, 0) {
        None => None,
        Some((facts, checks)) => Some(Block { facts, checks }),
    }
}

/// The views of a list of block sources.
pub open spec fn sources_view(ss: Seq<Vec<u8>>) -> Seq<Seq<u8>> {
    ss.map_values(|v: Vec<u8>| v@)
}

/// Whether a chain of printed block sources authorizes the operation: every
/// source parses within the closed rule language, and every caveat of every
/// block holds against the authority facts plus the ambient facts.
pub open spec fn sources_authorize(sources: Seq<Seq<u8>>, op: Seq<u8>) -> bool {
    (forall|i: int| 0 <= i < sources.len() ==> parse_block_src(sources[i]) is Some)
        && blocks_authorize(
        Seq::new(sources.len(), |i: int| parse_block_src(sources[i]).unwrap()),
        ambient_facts(op),
    )
}

/// Decides authorization from the printed sources of a verified token's
/// blocks, in order, against the operation demanded by the policy. Any
/// unparsable block denies; an empty chain denies.
pub fn authorize_sources(sources: &Vec<Vec<u8>>, op: &Vec<u8>) -> (r: bool)
    ensures
        r == sources_authorize(sources_view(sources@), op@),
{
    let ghost sv = sources_view(sources@);
    let mut blocks: Vec<Block> = Vec::new();
    let mut i: usize = 0;
    while i < sources.len()
        invariant
            i <= sources@.len(),
            sv == sources_view(sources@),
            blocks@.len() == i,
            forall|k: int| 0 <= k < i ==> parse_block_src(sv[k]) == Some(blocks_view(blocks@)[k]),
        decreases sources@.len() - i,
    {
        match parse_block_source(sources[i].as_slice()) {
            None => {
                proof {
                    assert(parse_block_src(sv[i as int]) is None);
                }
                return false;
            },
            Some(b) => {
                let ghost bv = b@;
                blocks.push(b);
                proof {
                    assert(blocks_view(blocks@)[i as int] == bv);
                }
            },
        }
        i += 1;
    }
    let ambient = make_ambient(op);
    let r = blocks_authorize_exec(&blocks, &ambient);
    proof {
        assert(blocks_view(blocks@) =~= Seq::new(sv.len(), |k: int| parse_block_src(sv[k]).unwrap()));
    }
    r
}

} // verus!
