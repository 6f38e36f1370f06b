//! The laws of the alignment discipline and of the persistent store, stated
//! over the same models the primitives' contracts use and proved once and
//! for all.

use vstd::prelude::*;

use crate::aggregate::branch_token;
use crate::aggregate::devices_holding;
use crate::aggregate::prev_value;
use crate::alignment::StackModel;
use crate::alignment::counter_bump;
use crate::alignment::path_of;
use crate::path::coord_text;
use crate::state::StateValue;
use crate::state::Storable;
use crate::text::decimal_chars;

verus! {

/// One alignment action of a round: entering an invocation of a token, or
/// leaving the innermost one.
pub enum AlignOp {
    Align(Seq<char>),
    Unalign,
}

/// The stack state one action leads to.
pub open spec fn op_step(m: StackModel, op: AlignOp) -> StackModel {
    match op {
        AlignOp::Align(t) => m.after_align(t),
        AlignOp::Unalign => m.after_unalign(),
    }
}

/// The stack state a sequence of actions leads to.
pub open spec fn replay(m: StackModel, ops: Seq<AlignOp>) -> StackModel
    decreases ops.len(),
{
    if ops.len() == 0 {
        m
    } else {
        replay(op_step(m, ops[0]), ops.skip(1))
    }
}

/// The path visited after each action of a round.
pub open spec fn visited(m: StackModel, ops: Seq<AlignOp>) -> Seq<Seq<Seq<char>>>
    decreases ops.len(),
{
    if ops.len() == 0 {
        Seq::empty()
    } else {
        seq![path_of(op_step(m, ops[0]).stack)] + visited(op_step(m, ops[0]), ops.skip(1))
    }
}

/// Alignment is data-independent: the paths a round visits are a function
/// of its align/unalign actions alone.  Two rounds that perform the same
/// actions from the same starting state visit identical paths, whatever
/// values they compute in between: no value appears in the replay.
pub proof fn lemma_alignment_data_independent(
    m1: StackModel,
    m2: StackModel,
    ops1: Seq<AlignOp>,
    ops2: Seq<AlignOp>,
)
    requires
        m1 == m2,
        ops1 == ops2,
    ensures
        visited(m1, ops1) == visited(m2, ops2),
        replay(m1, ops1) == replay(m2, ops2),
{
}

/// The depth a sequence of actions leaves the stack at, starting from the
/// given depth: entering deepens by one, leaving shallows by one and does
/// nothing at depth zero.
pub open spec fn depth_after(d: nat, ops: Seq<AlignOp>) -> nat
    decreases ops.len(),
{
    if ops.len() == 0 {
        d
    } else {
        let d2 = match ops[0] {
            AlignOp::Align(t) => d + 1,
            AlignOp::Unalign => if d == 0 {
                0
            } else {
                (d - 1) as nat
            },
        };
        depth_after(d2, ops.skip(1))
    }
}

/// The stack's depth after a replay is the depth its actions compute.
pub proof fn lemma_stack_depth(m: StackModel, ops: Seq<AlignOp>)
    ensures
        replay(m, ops).stack.len() == depth_after(m.stack.len(), ops),
    decreases ops.len(),
{
    if ops.len() > 0 {
        lemma_stack_depth(op_step(m, ops[0]), ops.skip(1));
    }
}

/// Balanced stack: a round whose actions return the running depth to zero
/// ends with an empty alignment stack.
pub proof fn lemma_balanced_round(ops: Seq<AlignOp>)
    requires
        depth_after(0, ops) == 0,
    ensures
        replay(StackModel::reset(), ops).stack == Seq::<(Seq<char>, u32)>::empty(),
{
    lemma_stack_depth(StackModel::reset(), ops);
    assert(replay(StackModel::reset(), ops).stack =~= Seq::<(Seq<char>, u32)>::empty());
}

/// A replay of concatenated actions is the replay of the second part from
/// the state the first part reached.
pub proof fn lemma_replay_append(m: StackModel, a: Seq<AlignOp>, b: Seq<AlignOp>)
    ensures
        replay(m, a + b) == replay(replay(m, a), b),
    decreases a.len(),
{
    if a.len() == 0 {
        assert(a + b =~= b);
    } else {
        assert((a + b)[0] == a[0]);
        assert((a + b).skip(1) =~= a.skip(1) + b);
        lemma_replay_append(op_step(m, a[0]), a.skip(1), b);
    }
}

/// One complete invocation of a token: entered and left again.
pub open spec fn visit_pair(token: Seq<char>) -> Seq<AlignOp> {
    seq![AlignOp::Align(token), AlignOp::Unalign]
}

/// `k` complete sibling invocations of the same token.
pub open spec fn visits(token: Seq<char>, k: nat) -> Seq<AlignOp>
    decreases k,
{
    if k == 0 {
        Seq::empty()
    } else {
        visits(token, (k - 1) as nat) + visit_pair(token)
    }
}

/// Replaying one complete invocation enters the token and leaves again.
proof fn lemma_replay_visit_pair(m: StackModel, token: Seq<char>)
    ensures
        replay(m, visit_pair(token)) == m.after_visit(token),
{
    let pair = visit_pair(token);
    let m1 = m.after_align(token);
    assert(pair[0] == AlignOp::Align(token));
    assert(pair.skip(1) =~= seq![AlignOp::Unalign]);
    assert(replay(m, pair) == replay(m1, seq![AlignOp::Unalign]));
    assert(seq![AlignOp::Unalign][0] == AlignOp::Unalign);
    assert(seq![AlignOp::Unalign].skip(1) =~= Seq::<AlignOp>::empty());
    assert(replay(m1, seq![AlignOp::Unalign]) == replay(
        m1.after_unalign(),
        Seq::<AlignOp>::empty(),
    ));
}

/// Sibling disambiguation: when the current path's counter is fresh, the
/// stack after `j` complete sibling invocations of one token is back where
/// it started, holds counter `j - 1` for the path, and gives the next
/// sibling the coordinate `(token, j)`: `k` siblings receive exactly the
/// counters `0` to `k - 1`.
pub proof fn lemma_sibling_disambiguation(m: StackModel, token: Seq<char>, j: nat)
    requires
        !m.trace.contains_key(path_of(m.stack)),
        j <= u32::MAX,
    ensures
        replay(m, visits(token, j)).stack == m.stack,
        replay(m, visits(token, j)).next_counter() == j as u32,
        replay(m, visits(token, j)).after_align(token).stack == m.stack.push((token, j as u32)),
    decreases j,
{
    if j == 0 {
        assert(visits(token, 0) =~= Seq::<AlignOp>::empty());
        assert(replay(m, visits(token, 0)) == m);
    } else {
        lemma_sibling_disambiguation(m, token, (j - 1) as nat);
        let prev = replay(m, visits(token, (j - 1) as nat));
        lemma_replay_append(m, visits(token, (j - 1) as nat), visit_pair(token));
        assert(replay(m, visits(token, j)) == replay(prev, visit_pair(token)));
        lemma_replay_visit_pair(prev, token);
        crate::alignment::lemma_after_visit(prev, token);
        assert(path_of(prev.stack) == path_of(m.stack));
        assert(replay(m, visits(token, j)).trace == prev.trace.insert(
            path_of(m.stack),
            (j - 1) as u32,
        ));
        assert(replay(m, visits(token, j)).next_counter() == counter_bump((j - 1) as u32));
    }
}

/// Branch projection: a path reached inside the branch taken on `true`
/// differs from every path reached inside the branch taken on `false`,
/// however the two rounds continue, because the coordinate the branch
/// enters renders differently.  A neighbour that took the other branch
/// therefore never appears in a field built inside this one.
pub proof fn lemma_branch_projection(
    common: Seq<(Seq<char>, u32)>,
    c1: u32,
    c2: u32,
    rest1: Seq<(Seq<char>, u32)>,
    rest2: Seq<(Seq<char>, u32)>,
)
    ensures
        path_of(common.push((branch_token(true), c1)) + rest1) != path_of(
            common.push((branch_token(false), c2)) + rest2,
        ),
{
    let k = common.len() as int;
    let p1 = path_of(common.push((branch_token(true), c1)) + rest1);
    let p2 = path_of(common.push((branch_token(false), c2)) + rest2);
    assert((common.push((branch_token(true), c1)) + rest1)[k] == (branch_token(true), c1));
    assert((common.push((branch_token(false), c2)) + rest2)[k] == (branch_token(false), c2));
    assert(p1[k] == coord_text((branch_token(true), c1)));
    assert(p2[k] == coord_text((branch_token(false), c2)));
    reveal_strlit("branch[true]");
    reveal_strlit("branch[false]");
    assert(coord_text((branch_token(true), c1))[7] == 't');
    assert(coord_text((branch_token(false), c2))[7] == 'f');
    assert(decimal_chars(c1 as nat).len() >= 1);
    assert(decimal_chars(c2 as nat).len() >= 1);
    assert(p1[k] != p2[k]);
    assert(p1 != p2);
}

/// A device whose whole tree lies inside the branch taken on `false` never
/// holds a path reached inside the branch taken on `true`: it is not among
/// the devices holding such a path, and so, by the contract of
/// `neighboring` and `share`, never appears in a field built there.
pub proof fn lemma_branch_excludes_device(
    inb: Map<int, Map<Seq<Seq<char>>, Seq<u8>>>,
    k: int,
    common: Seq<(Seq<char>, u32)>,
    c1: u32,
    rest1: Seq<(Seq<char>, u32)>,
)
    requires
        forall|q: Seq<Seq<char>>| #[trigger]
            inb[k].contains_key(q) ==> exists|c2: u32, rest2: Seq<(Seq<char>, u32)>|
                q == path_of(common.push((branch_token(false), c2)) + rest2),
    ensures
        !devices_holding(inb, path_of(common.push((branch_token(true), c1)) + rest1)).contains(k),
{
    let p1 = path_of(common.push((branch_token(true), c1)) + rest1);
    if inb.contains_key(k) && inb[k].contains_key(p1) {
        let (c2, rest2) = choose|c2: u32, rest2: Seq<(Seq<char>, u32)>|
            p1 == path_of(common.push((branch_token(false), c2)) + rest2);
        lemma_branch_projection(common, c1, c2, rest1, rest2);
    }
}

/// Distinct sibling counters give distinct coordinates in rendered form,
/// and so distinct emitted paths: together with sibling disambiguation,
/// the `k` paths that `k` sibling invocations of one token emit are
/// pairwise distinct.
pub proof fn lemma_sibling_paths_distinct(
    stack: Seq<(Seq<char>, u32)>,
    token: Seq<char>,
    c1: u32,
    c2: u32,
)
    requires
        c1 != c2,
    ensures
        coord_text((token, c1)) != coord_text((token, c2)),
        path_of(stack.push((token, c1))) != path_of(stack.push((token, c2))),
{
    let s1 = coord_text((token, c1));
    let s2 = coord_text((token, c2));
    crate::text::lemma_decimal_len(c1 as nat);
    crate::text::lemma_decimal_len(c2 as nat);
    if s1 == s2 {
        let cut = token.len() + 1;
        assert(s1.subrange(cut as int, s1.len() as int) =~= decimal_chars(c1 as nat));
        assert(s2.subrange(cut as int, s2.len() as int) =~= decimal_chars(c2 as nat));
        crate::text::lemma_decimal_injective(c1 as nat, c2 as nat);
    }
    let k = stack.len() as int;
    assert(path_of(stack.push((token, c1)))[k] == s1);
    assert(path_of(stack.push((token, c2)))[k] == s2);
}

/// One round of `repeat` on the store model: the previous value (or the
/// initial one) is evolved and stored back at the path.
pub open spec fn repeat_round<V: Storable>(
    store: Map<Seq<Seq<char>>, StateValue>,
    p: Seq<Seq<char>>,
    initial: V,
    evolve: spec_fn(V) -> V,
) -> (Option<V>, Map<Seq<Seq<char>>, StateValue>) {
    match prev_value::<V>(store, p, initial) {
        Some(prev) => (Some(evolve(prev)), store.insert(p, evolve(prev).wrap_spec())),
        None => (None, store),
    }
}

/// `n` consecutive rounds of `repeat` with the same initial value and
/// evolution, for `n` at least one.
pub open spec fn repeat_rounds<V: Storable>(
    store: Map<Seq<Seq<char>>, StateValue>,
    p: Seq<Seq<char>>,
    initial: V,
    evolve: spec_fn(V) -> V,
    n: nat,
) -> (Option<V>, Map<Seq<Seq<char>>, StateValue>)
    decreases n,
{
    if n <= 1 {
        repeat_round(store, p, initial, evolve)
    } else {
        repeat_round(repeat_rounds(store, p, initial, evolve, (n - 1) as nat).1, p, initial, evolve)
    }
}

/// State persistence, identity evolution: starting from a store without the
/// path, `repeat(initial, v -> v)` returns the initial value on round one
/// and on every later round, and the path keeps holding it.
pub proof fn lemma_repeat_identity<V: Storable>(
    store: Map<Seq<Seq<char>>, StateValue>,
    p: Seq<Seq<char>>,
    initial: V,
    n: nat,
)
    requires
        !store.contains_key(p),
        n >= 1,
    ensures
        repeat_rounds(store, p, initial, |v: V| v, n).0 == Some(initial),
        repeat_rounds(store, p, initial, |v: V| v, n).1 == store.insert(p, initial.wrap_spec()),
    decreases n,
{
    let evolve = |v: V| v;
    if n == 1 {
        assert(prev_value::<V>(store, p, initial) == Some(initial));
    } else {
        lemma_repeat_identity(store, p, initial, (n - 1) as nat);
        let st = repeat_rounds(store, p, initial, evolve, (n - 1) as nat).1;
        initial.lemma_wrap_unwrap();
        assert(prev_value::<V>(st, p, initial) == Some(initial));
        assert(st.insert(p, initial.wrap_spec()) =~= store.insert(p, initial.wrap_spec()));
    }
}

/// State persistence, successor evolution: starting from a store without
/// the path, `repeat(initial, v -> v + 1)` returns `initial + n` on the
/// `n`-th round, as long as the sum stays representable.
pub proof fn lemma_repeat_successor(
    store: Map<Seq<Seq<char>>, StateValue>,
    p: Seq<Seq<char>>,
    initial: i32,
    n: nat,
)
    requires
        !store.contains_key(p),
        n >= 1,
        initial + n <= i32::MAX,
    ensures
        repeat_rounds(store, p, initial, |v: i32| (v + 1) as i32, n).0 == Some(
            (initial + n) as i32,
        ),
        repeat_rounds(store, p, initial, |v: i32| (v + 1) as i32, n).1 == store.insert(
            p,
            ((initial + n) as i32).wrap_spec(),
        ),
    decreases n,
{
    let evolve = |v: i32| (v + 1) as i32;
    if n == 1 {
        assert(prev_value::<i32>(store, p, initial) == Some(initial));
    } else {
        lemma_repeat_successor(store, p, initial, (n - 1) as nat);
        let st = repeat_rounds(store, p, initial, evolve, (n - 1) as nat).1;
        let held = (initial + n - 1) as i32;
        held.lemma_wrap_unwrap();
        assert(prev_value::<i32>(st, p, initial) == Some(held));
        assert(st.insert(p, ((initial + n) as i32).wrap_spec()) =~= store.insert(
            p,
            ((initial + n) as i32).wrap_spec(),
        ));
    }
}

} // verus!
