use vstd::prelude::*;
use crate::bytes::{bytes_eq, push_all};
use crate::ids::{hex_val, hex_val_byte};

verus! {

/// The mathematical view of one ground predicate: a name applied to a list
/// of string terms, such as `resource("event")`.
pub ghost struct PredView {
    pub name: Seq<u8>,
    pub terms: Seq<Seq<u8>>,
}

/// One ground predicate of the closed rule language: a name and its string
/// terms. Facts and the conjuncts of caveats both take this shape.
pub struct Predicate {
    pub name: Vec<u8>,
    pub terms: Vec<Vec<u8>>,
}

impl View for Predicate {
    type V = PredView;

    open spec fn view(&self) -> PredView {
        PredView { name: self.name@, terms: Seq::new(self.terms@.len(), |i: int| self.terms@[i]@) }
    }
}

/// The view of one caveat: a conjunction of required predicates.
pub ghost struct CheckView {
    pub body: Seq<PredView>,
}

/// One caveat: it is satisfied only when every predicate of its body is
/// present in the fact base.
pub struct Check {
    pub body: Vec<Predicate>,
}

impl View for Check {
    type V = CheckView;

    open spec fn view(&self) -> CheckView {
        CheckView { body: self.body@.map_values(|p: Predicate| p@) }
    }
}

/// The view of one token block: the facts it carries and the caveats it adds.
pub ghost struct BlockView {
    pub facts: Seq<PredView>,
    pub checks: Seq<CheckView>,
}

/// One token block. Block 0 is the authority block; every later block only
/// narrows rights by adding caveats.
pub struct Block {
    pub facts: Vec<Predicate>,
    pub checks: Vec<Check>,
}

impl View for Block {
    type V = BlockView;

    open spec fn view(&self) -> BlockView {
        BlockView {
            facts: self.facts@.map_values(|p: Predicate| p@),
            checks: self.checks@.map_values(|c: Check| c@),
        }
    }
}

/// The views of a predicate list.
pub open spec fn preds_view(ps: Seq<Predicate>) -> Seq<PredView> {
    ps.map_values(|p: Predicate| p@)
}

/// The views of a block list.
pub open spec fn blocks_view(bs: Seq<Block>) -> Seq<BlockView> {
    bs.map_values(|b: Block| b@)
}

/// The views of a caveat list.
pub open spec fn checks_view(cs: Seq<Check>) -> Seq<CheckView> {
    cs.map_values(|c: Check| c@)
}

/// Whether the fact base holds this exact predicate.
pub open spec fn fact_present(p: PredView, facts: Seq<PredView>) -> bool {
    exists|i: int| 0 <= i < facts.len() && facts[i] == p
}

/// A caveat is satisfied only if every predicate it requires is present.
pub open spec fn check_sat(c: CheckView, facts: Seq<PredView>) -> bool {
    forall|j: int| 0 <= j < c.body.len() ==> fact_present(c.body[j], facts)
}

/// Every caveat of one block, against the fact base.
pub open spec fn block_checks_sat(b: BlockView, facts: Seq<PredView>) -> bool {
    forall|k: int| 0 <= k < b.checks.len() ==> check_sat(b.checks[k], facts)
}

/// The whole chain authorizes only if every caveat in every block is
/// satisfied by the authority facts together with the ambient facts; one
/// failing caveat anywhere denies.
pub open spec fn blocks_authorize(blocks: Seq<BlockView>, ambient: Seq<PredView>) -> bool {
    blocks.len() > 0 && forall|b: int|
        0 <= b < blocks.len() ==> block_checks_sat(blocks[b], blocks[0].facts + ambient)
}

/// The name of the ambient fact carrying the fixed resource: `resource`.
pub open spec fn resource_name() -> Seq<u8> {
    seq![0x72u8, 0x65, 0x73, 0x6f, 0x75, 0x72, 0x63, 0x65]
}

/// The name of the ambient fact carrying the operation: `operation`.
pub open spec fn operation_name() -> Seq<u8> {
    seq![0x6fu8, 0x70, 0x65, 0x72, 0x61, 0x74, 0x69, 0x6f, 0x6e]
}

/// The fixed resource sentinel every verification supplies: `event`.
pub open spec fn event_resource() -> Seq<u8> {
    seq![0x65u8, 0x76, 0x65, 0x6e, 0x74]
}

/// The ambient facts of one verification: the fixed resource and the
/// operation demanded by the event's policy.
pub open spec fn ambient_facts(op: Seq<u8>) -> Seq<PredView> {
    seq![
        PredView { name: resource_name(), terms: seq![event_resource()] },
        PredView { name: operation_name(), terms: seq![op] },
    ]
}

fn resource_name_exec() -> (r: Vec<u8>)
    ensures
        r@ == resource_name(),
{
    let mut v: Vec<u8> = Vec::new();
    v.push(0x72);
    v.push(0x65);
    v.push(0x73);
    v.push(0x6f);
    v.push(0x75);
    v.push(0x72);
    v.push(0x63);
    v.push(0x65);
    proof {
        assert(v@ =~= resource_name());
    }
    v
}

fn operation_name_exec() -> (r: Vec<u8>)
    ensures
        r@ == operation_name(),
{
    let mut v: Vec<u8> = Vec::new();
    v.push(0x6f);
    v.push(0x70);
    v.push(0x65);
    v.push(0x72);
    v.push(0x61);
    v.push(0x74);
    v.push(0x69);
    v.push(0x6f);
    v.push(0x6e);
    proof {
        assert(v@ =~= operation_name());
    }
    v
}

/// The fixed resource value as bytes.
pub fn event_resource_exec() -> (r: Vec<u8>)
    ensures
        r@ == event_resource(),
{
    let mut v: Vec<u8> = Vec::new();
    v.push(0x65);
    v.push(0x76);
    v.push(0x65);
    v.push(0x6e);
    v.push(0x74);
    proof {
        assert(v@ =~= event_resource());
    }
    v
}

/// Builds the two ambient facts for one verification.
pub fn make_ambient(op: &Vec<u8>) -> (r: Vec<Predicate>)
    ensures
        preds_view(r@) == ambient_facts(op@),
{
    let mut res_terms: Vec<Vec<u8>> = Vec::new();
    res_terms.push(event_resource_exec());
    let resource = Predicate { name: resource_name_exec(), terms: res_terms };
    let mut op_terms: Vec<Vec<u8>> = Vec::new();
    let mut op_copy: Vec<u8> = Vec::new();
    push_all(&mut op_copy, op.as_slice());
    op_terms.push(op_copy);
    let operation = Predicate { name: operation_name_exec(), terms: op_terms };
    let mut out: Vec<Predicate> = Vec::new();
    out.push(resource);
    out.push(operation);
    proof {
        assert(out@[0]@.terms =~= seq![event_resource()]);
        assert(out@[1]@.terms =~= seq![op@]);
        assert(op_copy@ =~= op@);
        assert(preds_view(out@) =~= ambient_facts(op@));
    }
    out
}

/// Structural equality of two predicates.
pub fn pred_eq(a: &Predicate, b: &Predicate) -> (r: bool)
    ensures
        r == (a@ == b@),
{
    if !bytes_eq(a.name.as_slice(), b.name.as_slice()) {
        return false;
    }
    if a.terms.len() != b.terms.len() {
        proof {
            assert(a@.terms.len() == a.terms@.len());
            assert(b@.terms.len() == b.terms@.len());
        }
        return false;
    }
    let mut i: usize = 0;
    while i < a.terms.len()
        invariant
            i <= a.terms@.len(),
            a.terms@.len() == b.terms@.len(),
            a@.name == b@.name,
            forall|k: int| 0 <= k < i ==> a@.terms[k] == b@.terms[k],
        decreases a.terms@.len() - i,
    {
        if !bytes_eq(a.terms[i].as_slice(), b.terms[i].as_slice()) {
            proof {
                assert(a@.terms[i as int] == a.terms@[i as int]@);
                assert(b@.terms[i as int] == b.terms@[i as int]@);
            }
            return false;
        }
        i += 1;
    }
    proof {
        assert(a@.terms =~= b@.terms);
    }
    true
}

/// Whether the fact list holds this exact predicate.
pub fn fact_present_exec(p: &Predicate, facts: &Vec<Predicate>) -> (r: bool)
    ensures
        r == fact_present(p@, preds_view(facts@)),
{
    let mut i: usize = 0;
    while i < facts.len()
        invariant
            i <= facts@.len(),
            forall|k: int| 0 <= k < i ==> preds_view(facts@)[k] != p@,
        decreases facts@.len() - i,
    {
        if pred_eq(&facts[i], p) {
            proof {
                assert(preds_view(facts@)[i as int] == p@);
            }
            return true;
        }
        i += 1;
    }
    false
}

pub proof fn lemma_fact_present_concat(p: PredView, xs: Seq<PredView>, ys: Seq<PredView>)
    ensures
        fact_present(p, xs + ys) == (fact_present(p, xs) || fact_present(p, ys)),
{
    if fact_present(p, xs) {
        let i = choose|i: int| 0 <= i < xs.len() && xs[i] == p;
        assert((xs + ys)[i] == p);
    }
    if fact_present(p, ys) {
        let i = choose|i: int| 0 <= i < ys.len() && ys[i] == p;
        assert((xs + ys)[xs.len() + i] == p);
    }
    if fact_present(p, xs + ys) {
        let i = choose|i: int| 0 <= i < (xs + ys).len() && (xs + ys)[i] == p;
        if i < xs.len() {
            assert(xs[i] == p);
        } else {
            assert(ys[i - xs.len()] == p);
        }
    }
}

/// Whether `p` is present in the base made of the authority facts followed
/// by the ambient facts.
fn fact_present_in_base(p: &Predicate, authority: &Vec<Predicate>, ambient: &Vec<Predicate>) -> (r:
    bool)
    ensures
        r == fact_present(p@, preds_view(authority@) + preds_view(ambient@)),
{
    proof {
        lemma_fact_present_concat(p@, preds_view(authority@), preds_view(ambient@));
    }
    if fact_present_exec(p, authority) {
        true
    } else {
        fact_present_exec(p, ambient)
    }
}

/// Whether one caveat is satisfied by the fact base.
fn check_sat_exec(c: &Check, authority: &Vec<Predicate>, ambient: &Vec<Predicate>) -> (r: bool)
    ensures
        r == check_sat(c@, preds_view(authority@) + preds_view(ambient@)),
{
    let ghost base = preds_view(authority@) + preds_view(ambient@);
    let mut j: usize = 0;
    while j < c.body.len()
        invariant
            j <= c.body@.len(),
            base == preds_view(authority@) + preds_view(ambient@),
            forall|k: int| 0 <= k < j ==> fact_present(c@.body[k], base),
        decreases c.body@.len() - j,
    {
        if !fact_present_in_base(&c.body[j], authority, ambient) {
            proof {
                assert(c@.body[j as int] == c.body@[j as int]@);
            }
            return false;
        }
        proof {
            assert(c@.body[j as int] == c.body@[j as int]@);
        }
        j += 1;
    }
    true
}

/// Evaluates the whole chain: every caveat of every block against the
/// authority facts of block 0 plus the ambient facts.
pub fn blocks_authorize_exec(blocks: &Vec<Block>, ambient: &Vec<Predicate>) -> (r: bool)
    ensures
        r == blocks_authorize(blocks_view(blocks@), preds_view(ambient@)),
{
    if blocks.len() == 0 {
        return false;
    }
    let ghost base = blocks_view(blocks@)[0].facts + preds_view(ambient@);
    let mut b: usize = 0;
    while b < blocks.len()
        invariant
            blocks@.len() > 0,
            b <= blocks@.len(),
            base == blocks_view(blocks@)[0].facts + preds_view(ambient@),
            forall|x: int| 0 <= x < b ==> block_checks_sat(blocks_view(blocks@)[x], base),
        decreases blocks@.len() - b,
    {
        let blk = &blocks[b];
        let mut k: usize = 0;
        while k < blk.checks.len()
            invariant
                blocks@.len() > 0,
                b < blocks@.len(),
                blk == blocks@[b as int],
                base == blocks_view(blocks@)[0].facts + preds_view(ambient@),
                k <= blk.checks@.len(),
                forall|y: int| 0 <= y < k ==> check_sat(blk@.checks[y], base),
            decreases blk.checks@.len() - k,
        {
            proof {
                assert(blocks_view(blocks@)[0].facts == blocks@[0]@.facts);
            }
            if !check_sat_exec(&blk.checks[k], &blocks[0].facts, ambient) {
                proof {
                    assert(blk@.checks[k as int] == blk.checks@[k as int]@);
                    assert(blocks_view(blocks@)[b as int] == blk@);
                    assert(!block_checks_sat(blocks_view(blocks@)[b as int], base));
                }
                return false;
            }
            proof {
                assert(blk@.checks[k as int] == blk.checks@[k as int]@);
            }
            k += 1;
        }
        proof {
            assert(blocks_view(blocks@)[b as int] == blk@);
        }
        b += 1;
    }
    true
}

/// Blank bytes inside a policy document.
pub open spec fn is_json_ws(b: u8) -> bool {
    b == 0x20 || b == 0x09 || b == 0x0a || b == 0x0d
}

/// The first position at or after `from` holding a byte that is not blank.
pub open spec fn skip_json_ws(s: Seq<u8>, from: int) -> int
    decreases s.len() - from,
    when 0 <= from
{
    if from >= s.len() {
        s.len() as int
    } else if is_json_ws(s[from]) {
        skip_json_ws(s, from + 1)
    } else {
        from
    }
}

/// The byte named by a single-character escape, if the escape is known.
pub open spec fn esc_byte(b: u8) -> Option<u8> {
    if b == 0x22 {
        Some(0x22u8)
    } else if b == 0x5c {
        Some(0x5cu8)
    } else if b == 0x2f {
        Some(0x2fu8)
    } else if b == 0x6e {
        Some(0x0au8)
    } else if b == 0x74 {
        Some(0x09u8)
    } else if b == 0x72 {
        Some(0x0du8)
    } else if b == 0x62 {
        Some(0x08u8)
    } else if b == 0x66 {
        Some(0x0cu8)
    } else {
        None
    }
}

fn esc_byte_exec(b: u8) -> (r: Option<u8>)
    ensures
        r == esc_byte(b),
{
    if b == 0x22 {
        Some(0x22)
    } else if b == 0x5c {
        Some(0x5c)
    } else if b == 0x2f {
        Some(0x2f)
    } else if b == 0x6e {
        Some(0x0a)
    } else if b == 0x74 {
        Some(0x09)
    } else if b == 0x72 {
        Some(0x0d)
    } else if b == 0x62 {
        Some(0x08)
    } else if b == 0x66 {
        Some(0x0c)
    } else {
        None
    }
}

/// The code point named by the four digits of a `\uXXXX` escape starting at
/// `i`, when all four are hexadecimal.
pub open spec fn u_escape_val(s: Seq<u8>, i: int) -> Option<int> {
    if 0 <= i && i + 4 <= s.len() && hex_val(s[i]) is Some && hex_val(s[i + 1]) is Some && hex_val(
        s[i + 2],
    ) is Some && hex_val(s[i + 3]) is Some {
        Some(
            (hex_val(s[i]).unwrap() as int) * 4096 + (hex_val(s[i + 1]).unwrap() as int) * 256 + (
            hex_val(s[i + 2]).unwrap() as int) * 16 + (hex_val(s[i + 3]).unwrap() as int),
        )
    } else {
        None
    }
}

/// The content of a quoted string from position `i` up to its closing quote,
/// with single-character escapes and `\uXXXX` escapes of code points below
/// 0x80 resolved, and the position just past the closing quote. Raw control
/// bytes, unknown escapes and `\u` escapes at or above 0x80 are outside the
/// accepted subset and are unparsable.
pub open spec fn unescape(s: Seq<u8>, i: int) -> Option<(Seq<u8>, int)>
    decreases s.len() - i,
    when 0 <= i
{
    if i >= s.len() {
        None
    } else if s[i] == 0x22 {
        Some((Seq::empty(), i + 1))
    } else if s[i] == 0x5c {
        if i + 1 >= s.len() {
            None
        } else if s[i + 1] == 0x75 {
            match u_escape_val(s, i + 2) {
                None => None,
                Some(v) => {
                    if v < 0x80 {
                        match unescape(s, i + 6) {
                            None => None,
                            Some(r) => Some((seq![v as u8] + r.0, r.1)),
                        }
                    } else {
                        None
                    }
                },
            }
        } else {
            match esc_byte(s[i + 1]) {
                None => None,
                Some(c) => match unescape(s, i + 2) {
                    None => None,
                    Some(r) => Some((seq![c] + r.0, r.1)),
                },
            }
        }
    } else if s[i] < 0x20 {
        None
    } else {
        match unescape(s, i + 1) {
            None => None,
            Some(r) => Some((seq![s[i]] + r.0, r.1)),
        }
    }
}

/// A policy is a single quoted operation name, possibly surrounded by
/// blanks; anything else is malformed and denies.
pub open spec fn spec_policy_operation(s: Seq<u8>) -> Option<Seq<u8>> {
    let a = skip_json_ws(s, 0);
    if a < s.len() && s[a] == 0x22 {
        match unescape(s, a + 1) {
            None => None,
            Some(r) => {
                if 0 <= r.1 <= s.len() && skip_json_ws(s, r.1) == s.len() {
                    Some(r.0)
                } else {
                    None
                }
            },
        }
    } else {
        None
    }
}

/// Extracts the operation name from a policy document: the document must be
/// one quoted string, or the policy denies.
pub fn policy_operation(s: &[u8]) -> (r: Option<Vec<u8>>)
    ensures
        match spec_policy_operation(s@) {
            None => r is None,
            Some(v) => r matches Some(rv) && rv@ == v,
        },
{
    let n = s.len();
    let mut a: usize = 0;
    while a < n && (s[a] == 0x20 || s[a] == 0x09 || s[a] == 0x0a || s[a] == 0x0d)
        invariant
            a <= n,
            n == s@.len(),
            skip_json_ws(s@, 0) == skip_json_ws(s@, a as int),
        decreases n - a,
    {
        a += 1;
    }
    if a >= n {
        return None;
    }
    if s[a] != 0x22 {
        return None;
    }
    let ghost start = a + 1;
    let mut acc: Vec<u8> = Vec::new();
    let mut i: usize = a + 1;
    proof {
        assert(unescape(s@, start as int) matches Some(r0) ==> r0.0 =~= acc@ + r0.0);
    }
    loop
        invariant
            a < n == s@.len(),
            a + 1 <= i <= n,
            start == a + 1,
            s@[a as int] == 0x22,
            skip_json_ws(s@, 0) == a as int,
            match unescape(s@, i as int) {
                None => unescape(s@, start as int) is None,
                Some(rr) => unescape(s@, start as int) matches Some(r0) && r0.0 == acc@ + rr.0
                    && r0.1 == rr.1,
            },
        decreases n - i,
    {
        if i >= n {
            return None;
        }
        let c = s[i];
        if c == 0x22 {
            proof {
                assert(unescape(s@, i as int) == Some((Seq::<u8>::empty(), i + 1 as int)));
                assert(unescape(s@, start as int) matches Some(r0) ==> r0.0 =~= acc@);
            }
            let mut j: usize = i + 1;
            while j < n && (s[j] == 0x20 || s[j] == 0x09 || s[j] == 0x0a || s[j] == 0x0d)
                invariant
                    j <= n,
                    n == s@.len(),
                    skip_json_ws(s@, (i + 1) as int) == skip_json_ws(s@, j as int),
                decreases n - j,
            {
                j += 1;
            }
            if j == n {
                return Some(acc);
            } else {
                return None;
            }
        } else if c == 0x5c {
            if i + 1 >= n {
                return None;
            }
            if s[i + 1] == 0x75 {
                if n - (i + 2) < 4 {
                    return None;
                }
                let d0 = match hex_val_byte(s[i + 2]) {
                    None => {
                        return None;
                    },
                    Some(d) => d,
                };
                let d1 = match hex_val_byte(s[i + 3]) {
                    None => {
                        return None;
                    },
                    Some(d) => d,
                };
                let d2 = match hex_val_byte(s[i + 4]) {
                    None => {
                        return None;
                    },
                    Some(d) => d,
                };
                let d3 = match hex_val_byte(s[i + 5]) {
                    None => {
                        return None;
                    },
                    Some(d) => d,
                };
                let v: u32 = (d0 as u32) * 4096 + (d1 as u32) * 256 + (d2 as u32) * 16 + (
                d3 as u32);
                proof {
                    assert(u_escape_val(s@, (i + 2) as int) == Some(v as int));
                }
                if v >= 0x80 {
                    return None;
                }
                let b: u8 = v as u8;
                let ghost prev = acc@;
                acc.push(b);
                proof {
                    assert(unescape(s@, (i + 6) as int) matches Some(rr) ==> (prev + (seq![b]
                        + rr.0)) =~= (acc@ + rr.0));
                }
                i += 6;
            } else {
                match esc_byte_exec(s[i + 1]) {
                    None => {
                        return None;
                    },
                    Some(d) => {
                        let ghost prev = acc@;
                        acc.push(d);
                        proof {
                            assert(unescape(s@, (i + 2) as int) matches Some(rr) ==> (prev + (
                            seq![d] + rr.0)) =~= (acc@ + rr.0));
                        }
                        i += 2;
                    },
                }
            }
        } else if c < 0x20 {
            return None;
        } else {
            let ghost prev = acc@;
            acc.push(c);
            proof {
                assert(unescape(s@, (i + 1) as int) matches Some(rr) ==> (prev + (seq![c] + rr.0))
                    =~= (acc@ + rr.0));
            }
            i += 1;
        }
    }
}

/// The operation name `view`.
pub open spec fn view_op() -> Seq<u8> {
    seq![0x76u8, 0x69, 0x65, 0x77]
}

/// A caveat that requires a `resource` fact whose value is not the fixed
/// resource sentinel is never satisfied by the ambient facts, whatever the
/// operation; unless the authority block itself supplies that exact fact,
/// the whole chain denies.
pub proof fn lemma_mismatched_resource_denies(
    blocks: Seq<BlockView>,
    op: Seq<u8>,
    b: int,
    k: int,
    j: int,
)
    requires
        0 <= b < blocks.len(),
        0 <= k < blocks[b].checks.len(),
        0 <= j < blocks[b].checks[k].body.len(),
        blocks[b].checks[k].body[j].name == resource_name(),
        blocks[b].checks[k].body[j].terms != seq![event_resource()],
        !fact_present(blocks[b].checks[k].body[j], blocks[0].facts),
    ensures
        !blocks_authorize(blocks, ambient_facts(op)),
{
    let p = blocks[b].checks[k].body[j];
    let ambient = ambient_facts(op);
    let base = blocks[0].facts + ambient;
    if blocks_authorize(blocks, ambient) {
        assert(block_checks_sat(blocks[b], base));
        assert(check_sat(blocks[b].checks[k], base));
        assert(fact_present(p, base));
        lemma_fact_present_concat(p, blocks[0].facts, ambient);
        assert(fact_present(p, ambient));
        let i = choose|i: int| 0 <= i < ambient.len() && ambient[i] == p;
        if i == 0 {
            assert(p.terms == seq![event_resource()]);
        } else {
            assert(p.name == operation_name());
            assert(resource_name().len() == 8);
            assert(operation_name().len() == 9);
        }
        assert(false);
    }
}

/// The canonical attenuated chain: an authority block without caveats, plus
/// one appended block whose single caveat requires operation `view` on the
/// fixed resource. Against the ambient operation `view`, the evaluator
/// accepts the chain.
pub proof fn lemma_view_caveat_admits(authority: BlockView, appended: BlockView)
    requires
        authority.checks.len() == 0,
        appended.checks == seq![
            CheckView {
                body: seq![
                    PredView { name: resource_name(), terms: seq![event_resource()] },
                    PredView { name: operation_name(), terms: seq![view_op()] },
                ],
            },
        ],
    ensures
        blocks_authorize(seq![authority, appended], ambient_facts(view_op())),
{
    let blocks = seq![authority, appended];
    let ambient = ambient_facts(view_op());
    let base = blocks[0].facts + ambient;
    let c = appended.checks[0];
    assert(base[blocks[0].facts.len() as int + 0] == c.body[0]);
    assert(base[blocks[0].facts.len() as int + 1] == c.body[1]);
    assert(fact_present(c.body[0], base));
    assert(fact_present(c.body[1], base));
    assert forall|x: int| 0 <= x < blocks.len() implies block_checks_sat(blocks[x], base) by {
        if x == 0 {
            assert(blocks[x].checks.len() == 0);
        } else {
            assert(blocks[x] == appended);
            assert forall|k: int| 0 <= k < appended.checks.len() implies check_sat(
                appended.checks[k],
                base,
            ) by {
                assert(appended.checks[k] == c);
                assert forall|j: int| 0 <= j < c.body.len() implies fact_present(
                    c.body[j],
                    base,
                ) by {
                    if j == 0 {
                        assert(fact_present(c.body[0], base));
                    } else {
                        assert(j == 1);
                    }
                }
            }
        }
    }
}

} // verus!
