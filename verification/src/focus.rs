use vstd::prelude::*;

use crate::geometry::node_contains;
use crate::geometry::node_contains_cursor;
use crate::geometry::CursorPosition;
use crate::geometry::UiNode;
use crate::input::click_edge;
use crate::input::spec_click_edge;
use crate::input::CursorSource;
use crate::input::MouseButtonState;
use crate::input::TouchEvent;
use crate::interaction::FocusPolicy;
use crate::interaction::Interaction;

verus! {

/// The node with all fields unchanged except its interaction.
pub open spec fn with_interaction(n: UiNode, s: Interaction) -> UiNode {
    UiNode {
        x: n.x,
        y: n.y,
        z: n.z,
        width: n.width,
        height: n.height,
        clip: n.clip,
        focus_policy: n.focus_policy,
        interaction: s,
    }
}

/// The node forwards interaction to nodes behind it; an absent policy
/// defaults to `FocusPolicy::Block`.
pub open spec fn is_pass(n: UiNode) -> bool {
    n.focus_policy == Option::Some(FocusPolicy::Pass)
}

/// The walker processes node `x` before node `y`: nearer nodes (larger `z`)
/// come first, and nodes of equal depth keep the collection's order.
pub open spec fn depth_before(s: Seq<UiNode>, x: int, y: int) -> bool {
    s[x].z > s[y].z || (s[x].z == s[y].z && x < y)
}

/// Node `j` is a hit candidate that the walker reaches before node `i`.
pub open spec fn in_front(s: Seq<UiNode>, c: CursorPosition, j: int, i: int) -> bool {
    &&& 0 <= j < s.len()
    &&& node_contains(s[j], c)
    &&& depth_before(s, j, i)
}

/// Every hit candidate in front of node `i` forwards interaction, so the
/// walker reaches node `i` itself.
pub open spec fn unobstructed(s: Seq<UiNode>, c: CursorPosition, i: int) -> bool {
    forall|j: int| #[trigger] in_front(s, c, j, i) ==> is_pass(s[j])
}

/// The state the walker assigns to every candidate it reaches.
pub open spec fn interaction_on_hit(clicked: bool) -> Interaction {
    if clicked {
        Interaction::Clicked
    } else {
        Interaction::Hovered
    }
}

/// The interaction node `i` ends the frame with: idle when there is no
/// cursor; clicked or hovered when the node is hit and no blocking candidate
/// stands in front of it; idle otherwise.
pub open spec fn expected_interaction(
    s: Seq<UiNode>,
    cursor: Option<CursorPosition>,
    clicked: bool,
    i: int,
) -> Interaction {
    match cursor {
        Option::None => Interaction::Idle,
        Option::Some(c) => if node_contains(s[i], c) && unobstructed(s, c, i) {
            interaction_on_hit(clicked)
        } else {
            Interaction::Idle
        },
    }
}

/// The whole frame's outcome: every node keeps its geometry and policy and
/// gets its expected interaction.
pub open spec fn pass_result(
    s: Seq<UiNode>,
    cursor: Option<CursorPosition>,
    clicked: bool,
) -> Seq<UiNode> {
    Seq::new(s.len(), |i: int| with_interaction(s[i], expected_interaction(s, cursor, clicked, i)))
}

/// The reset pass: forces every tracked node's interaction to
/// `Interaction::Idle` before the frame's walker runs, so no stale state
/// survives from the previous frame.
pub fn set_all_interactions_to_none(nodes: &mut Vec<UiNode>)
    ensures
        final(nodes)@.len() == old(nodes)@.len(),
        forall|i: int|
            0 <= i < old(nodes)@.len() ==> final(nodes)@[i] == with_interaction(
                old(nodes)@[i],
                Interaction::Idle,
            ),
{
    let mut k: usize = 0;
    while k < nodes.len()
        invariant
            0 <= k <= nodes@.len(),
            nodes@.len() == old(nodes)@.len(),
            forall|i: int|
                0 <= i < k ==> nodes@[i] == with_interaction(old(nodes)@[i], Interaction::Idle),
            forall|i: int| k <= i < nodes@.len() ==> nodes@[i] == old(nodes)@[i],
        decreases nodes@.len() - k,
    {
        let mut n = nodes[k];
        n.interaction = Interaction::Idle;
        nodes.set(k, n);
        k = k + 1;
    }
}

/// Position `i` of the node collection occurs in the candidate list.
pub open spec fn appears(q: Seq<usize>, i: int) -> bool {
    exists|a: int| 0 <= a < q.len() && q[a] as int == i
}

/// The hit collector: gathers the positions of all nodes whose visible
/// rectangle contains the cursor, in collection order.
pub fn collect_hit_candidates(nodes: &Vec<UiNode>, c: CursorPosition) -> (cands: Vec<usize>)
    ensures
        forall|a: int|
            0 <= a < cands@.len() ==> (cands@[a] as int) < nodes@.len() && node_contains(
                nodes@[cands@[a] as int],
                c,
            ),
        forall|i: int| 0 <= i < nodes@.len() && node_contains(nodes@[i], c) ==> appears(cands@, i),
        forall|a: int, b: int| 0 <= a < b < cands@.len() ==> (cands@[a] as int) < (cands@[b] as int),
{
    let mut cands: Vec<usize> = Vec::new();
    let mut k: usize = 0;
    while k < nodes.len()
        invariant
            0 <= k <= nodes@.len(),
            forall|a: int|
                0 <= a < cands@.len() ==> (cands@[a] as int) < k && node_contains(
                    nodes@[cands@[a] as int],
                    c,
                ),
            forall|i: int| 0 <= i < k && node_contains(nodes@[i], c) ==> appears(cands@, i),
            forall|a: int, b: int|
                0 <= a < b < cands@.len() ==> (cands@[a] as int) < (cands@[b] as int),
        decreases nodes@.len() - k,
    {
        let ghost cands0 = cands@;
        if node_contains_cursor(&nodes[k], c) {
            cands.push(k);
            proof {
                assert(cands@[cands0.len() as int] as int == k as int);
                assert forall|i: int| 0 <= i < k + 1 && node_contains(nodes@[i], c) implies appears(
                    cands@,
                    i,
                ) by {
                    if i < k {
                        assert(appears(cands0, i));
                        let a = choose|a: int| 0 <= a < cands0.len() && cands0[a] as int == i;
                        assert(cands@[a] as int == i);
                        assert(appears(cands@, i));
                    } else {
                        assert(cands@[cands0.len() as int] as int == i);
                    }
                };
            }
        }
        k = k + 1;
    }
    cands
}

fn depth_before_exec(nodes: &Vec<UiNode>, x: usize, y: usize) -> (r: bool)
    requires
        x < nodes@.len(),
        y < nodes@.len(),
    ensures
        r == depth_before(nodes@, x as int, y as int),
{
    nodes[x].z > nodes[y].z || (nodes[x].z == nodes[y].z && x < y)
}

/// Swapping two entries of a sequence keeps its multiset of values.
proof fn lemma_swap_multiset(q: Seq<usize>, a: int, b: int)
    requires
        0 <= a < q.len(),
        0 <= b < q.len(),
        a != b,
    ensures
        q.update(a, q[b]).update(b, q[a]).to_multiset() == q.to_multiset(),
{
    broadcast use vstd::seq_lib::group_to_multiset_ensures;

    let q1 = q.update(a, q[b]);
    assert(q.contains(q[a]));
    assert(q.contains(q[b]));
    assert(q1[b] == q[b]);
    assert(q1.to_multiset() == q.to_multiset().insert(q[b]).remove(q[a]));
    assert(q1.update(b, q[a]).to_multiset() == q1.to_multiset().insert(q[a]).remove(q[b]));
    assert(q.update(a, q[b]).update(b, q[a]).to_multiset() =~= q.to_multiset());
}

/// The depth sorter: orders candidate positions so that nearer nodes (larger
/// `z`) come first and nodes of equal depth keep their collection order. The
/// sort is an insertion sort by the strict total order `depth_before`, so the
/// result is deterministic.
fn sort_by_depth(nodes: &Vec<UiNode>, idxs: &mut Vec<usize>)
    requires
        forall|a: int| 0 <= a < old(idxs)@.len() ==> (old(idxs)@[a] as int) < nodes@.len(),
    ensures
        final(idxs)@.len() == old(idxs)@.len(),
        final(idxs)@.to_multiset() == old(idxs)@.to_multiset(),
        forall|a: int| 0 <= a < final(idxs)@.len() ==> (final(idxs)@[a] as int) < nodes@.len(),
        forall|a: int, b: int|
            0 <= a < b < final(idxs)@.len() ==> !depth_before(
                nodes@,
                final(idxs)@[b] as int,
                final(idxs)@[a] as int,
            ),
{
    let n = idxs.len();
    if n <= 1 {
        return ;
    }
    let mut i: usize = 1;
    while i < n
        invariant
            1 <= i <= n,
            n == idxs@.len(),
            idxs@.to_multiset() == old(idxs)@.to_multiset(),
            forall|a: int| 0 <= a < n ==> (idxs@[a] as int) < nodes@.len(),
            forall|a: int, b: int|
                0 <= a < b < i ==> !depth_before(nodes@, idxs@[b] as int, idxs@[a] as int),
        decreases n - i,
    {
        let mut j: usize = i;
        while j > 0 && depth_before_exec(nodes, idxs[j], idxs[j - 1])
            invariant
                0 <= j <= i < n,
                n == idxs@.len(),
                idxs@.to_multiset() == old(idxs)@.to_multiset(),
                forall|a: int| 0 <= a < n ==> (idxs@[a] as int) < nodes@.len(),
                forall|a: int, b: int|
                    0 <= a < b <= i && b != j ==> !depth_before(
                        nodes@,
                        idxs@[b] as int,
                        idxs@[a] as int,
                    ),
            decreases j,
        {
            let moving = idxs[j];
            let other = idxs[j - 1];
            let ghost q0 = idxs@;
            idxs.set(j, other);
            idxs.set(j - 1, moving);
            proof {
                lemma_swap_multiset(q0, j as int, j - 1 as int);
                assert(idxs@ == q0.update(j as int, q0[j - 1 as int]).update(
                    j - 1 as int,
                    q0[j as int],
                ));
            }
            j = j - 1;
        }
        proof {
            assert forall|a: int, b: int| 0 <= a < b < i + 1 implies !depth_before(
                nodes@,
                idxs@[b] as int,
                idxs@[a] as int,
            ) by {
                if b == j {
                    assert(j > 0);
                    assert(!depth_before(nodes@, idxs@[j as int] as int, idxs@[j - 1] as int));
                    if a < j - 1 {
                        assert(!depth_before(nodes@, idxs@[j - 1] as int, idxs@[a] as int));
                    }
                }
            };
        }
        i = i + 1;
    }
}

/// Position `i` of the node collection occurs among the first `p` candidates.
spec fn in_prefix(q: Seq<usize>, p: int, i: int) -> bool {
    exists|a: int| 0 <= a < p && a < q.len() && q[a] as int == i
}

/// The focus pass for one frame, on an already-resolved input snapshot:
/// reset, hit collection, depth sort, and the front-to-back policy walk.
pub fn focus_pass(nodes: &mut Vec<UiNode>, cursor: Option<CursorPosition>, clicked: bool)
    ensures
        final(nodes)@ == pass_result(old(nodes)@, cursor, clicked),
{
    let ghost s0 = old(nodes)@;
    set_all_interactions_to_none(nodes);
    let ghost sr = nodes@;
    let c: CursorPosition = match cursor {
        Option::None => {
            proof {
                assert(nodes@ =~= pass_result(s0, cursor, clicked));
            }
            return ;
        },
        Option::Some(cc) => cc,
    };
    let mut cands = collect_hit_candidates(nodes, c);
    let ghost q_orig = cands@;
    sort_by_depth(nodes, &mut cands);
    let ghost sq = cands@;
    proof {
        broadcast use vstd::seq_lib::group_to_multiset_ensures;

        assert(q_orig.no_duplicates());
        q_orig.lemma_multiset_has_no_duplicates();
        assert forall|x: usize| sq.to_multiset().contains(x) implies sq.to_multiset().count(x)
            == 1 by {
            assert(q_orig.to_multiset().contains(x));
        };
        sq.lemma_multiset_has_no_duplicates_conv();
        assert forall|b: int| 0 <= b < sq.len() implies node_contains(
            sr[sq[b] as int],
            c,
        ) by {
            assert(sq.contains(sq[b]));
            assert(sq.to_multiset().count(sq[b]) > 0);
            assert(q_orig.to_multiset().count(sq[b]) > 0);
            assert(q_orig.contains(sq[b]));
            let a = choose|a: int| 0 <= a < q_orig.len() && q_orig[a] == sq[b];
            assert(node_contains(sr[q_orig[a] as int], c));
        };
        assert forall|i: int|
            0 <= i < sr.len() && node_contains(sr[i], c) implies appears(sq, i) by {
            assert(appears(q_orig, i));
            let a = choose|a: int| 0 <= a < q_orig.len() && q_orig[a] as int == i;
            let v = q_orig[a];
            assert(q_orig.contains(v));
            assert(q_orig.to_multiset().count(v) > 0);
            assert(sq.to_multiset().count(v) > 0);
            assert(sq.contains(v));
            let b = choose|b: int| 0 <= b < sq.len() && sq[b] == v;
            assert(sq[b] as int == i);
        };
    }
    let state = if clicked {
        Interaction::Clicked
    } else {
        Interaction::Hovered
    };
    let mut p: usize = 0;
    let mut blocked = false;
    while p < cands.len() && !blocked
        invariant
            0 <= p <= sq.len(),
            cands@ == sq,
            nodes@.len() == sr.len(),
            state == interaction_on_hit(clicked),
            sq.no_duplicates(),
            forall|a: int|
                0 <= a < sq.len() ==> (sq[a] as int) < sr.len() && node_contains(
                    sr[sq[a] as int],
                    c,
                ),
            forall|a: int, b: int|
                0 <= a < b < sq.len() ==> !depth_before(sr, sq[b] as int, sq[a] as int),
            forall|a: int|
                0 <= a < p ==> nodes@[sq[a] as int] == with_interaction(sr[sq[a] as int], state),
            forall|i: int|
                0 <= i < sr.len() && !in_prefix(sq, p as int, i) ==> nodes@[i] == sr[i],
            !blocked ==> forall|a: int| 0 <= a < p ==> is_pass(sr[sq[a] as int]),
            blocked ==> p >= 1 && !is_pass(sr[sq[p - 1] as int]) && forall|a: int|
                0 <= a < p - 1 ==> is_pass(sr[sq[a] as int]),
        decreases sq.len() - p,
    {
        let idx = cands[p];
        let mut nd = nodes[idx];
        nd.interaction = state;
        nodes.set(idx, nd);
        proof {
            assert(in_prefix(sq, p + 1, idx as int));
            assert forall|i: int|
                0 <= i < sr.len() && !in_prefix(sq, p + 1, i) implies nodes@[i] == sr[i] by {
                assert(!in_prefix(sq, p as int, i));
            };
        }
        match nd.focus_policy {
            Option::Some(FocusPolicy::Block) => {
                blocked = true;
            },
            Option::Some(FocusPolicy::Pass) => {},
            Option::None => {
                blocked = true;
            },
        }
        p = p + 1;
    }
    proof {
        assert forall|i: int| 0 <= i < sr.len() implies nodes@[i] == with_interaction(
            sr[i],
            expected_interaction(sr, cursor, clicked, i),
        ) by {
            if in_prefix(sq, p as int, i) {
                let a = choose|a: int| 0 <= a < p && a < sq.len() && sq[a] as int == i;
                assert(nodes@[i] == with_interaction(sr[i], state));
                assert(node_contains(sr[i], c));
                assert forall|j: int| in_front(sr, c, j, i) implies is_pass(sr[j]) by {
                    assert(appears(sq, j));
                    let b = choose|b: int| 0 <= b < sq.len() && sq[b] as int == j;
                    assert(depth_before(sr, j, i));
                    assert(j != i);
                    assert(b != a);
                    if b > a {
                        assert(!depth_before(sr, sq[b] as int, sq[a] as int));
                        assert(false);
                    }
                    assert(b < a);
                    assert(b < p - 1);
                    assert(is_pass(sr[sq[b] as int]));
                };
                assert(unobstructed(sr, c, i));
                assert(expected_interaction(sr, cursor, clicked, i) == interaction_on_hit(
                    clicked,
                ));
            } else {
                assert(nodes@[i] == sr[i]);
                assert(sr[i] == with_interaction(sr[i], Interaction::Idle));
                if node_contains(sr[i], c) {
                    assert(appears(sq, i));
                    let a = choose|a: int| 0 <= a < sq.len() && sq[a] as int == i;
                    assert(a >= p);
                    assert(p < sq.len());
                    assert(blocked);
                    let j = sq[p - 1] as int;
                    assert(node_contains(sr[j], c));
                    assert(!depth_before(sr, sq[a] as int, sq[p - 1] as int));
                    assert(j != i);
                    assert(depth_before(sr, j, i));
                    assert(in_front(sr, c, j, i));
                    assert(!is_pass(sr[j]));
                    assert(!unobstructed(sr, c, i));
                }
                assert(expected_interaction(sr, cursor, clicked, i) == Interaction::Idle);
            }
        };
        assert(nodes@ =~= pass_result(sr, cursor, clicked));
        lemma_pass_result_same_geometry(sr, s0, cursor, clicked);
    }
}

/// Two node collections that agree on everything but their interactions.
pub open spec fn same_geometry(s1: Seq<UiNode>, s2: Seq<UiNode>) -> bool {
    &&& s1.len() == s2.len()
    &&& forall|i: int|
        0 <= i < s1.len() ==> with_interaction(s1[i], Interaction::Idle) == with_interaction(
            s2[i],
            Interaction::Idle,
        )
}

/// The frame's outcome depends only on geometry, depth and policy, never on
/// the interactions the nodes carried into the pass.
pub proof fn lemma_pass_result_same_geometry(
    s1: Seq<UiNode>,
    s2: Seq<UiNode>,
    cursor: Option<CursorPosition>,
    clicked: bool,
)
    requires
        same_geometry(s1, s2),
    ensures
        pass_result(s1, cursor, clicked) == pass_result(s2, cursor, clicked),
{
    assert forall|i: int| 0 <= i < s1.len() implies pass_result(s1, cursor, clicked)[i]
        == pass_result(s2, cursor, clicked)[i] by {
        match cursor {
            Option::None => {},
            Option::Some(c) => {
                assert forall|k: int| 0 <= k < s1.len() implies node_contains(s1[k], c)
                    == node_contains(s2[k], c) by {
                    assert(with_interaction(s1[k], Interaction::Idle) == with_interaction(
                        s2[k],
                        Interaction::Idle,
                    ));
                };
                if unobstructed(s1, c, i) {
                    assert forall|j: int| in_front(s2, c, j, i) implies is_pass(s2[j]) by {
                        assert(in_front(s1, c, j, i));
                    };
                }
                if unobstructed(s2, c, i) {
                    assert forall|j: int| in_front(s1, c, j, i) implies is_pass(s1[j]) by {
                        assert(in_front(s2, c, j, i));
                    };
                }
            },
        }
    };
    assert(pass_result(s1, cursor, clicked) =~= pass_result(s2, cursor, clicked));
}

/// No cursor means no interaction: when the cursor sample is absent, every
/// node ends the frame idle.
pub proof fn lemma_no_cursor_no_interaction(s: Seq<UiNode>, clicked: bool)
    ensures
        forall|i: int|
            0 <= i < s.len() ==> pass_result(s, Option::None, clicked)[i].interaction
                == Interaction::Idle,
{
}

/// The reset makes the pass idempotent: running it twice in a row with an
/// unchanged input snapshot leaves every node's interaction as the first run
/// set it.
pub proof fn lemma_focus_pass_idempotent(
    s: Seq<UiNode>,
    cursor: Option<CursorPosition>,
    clicked: bool,
)
    ensures
        pass_result(pass_result(s, cursor, clicked), cursor, clicked) == pass_result(
            s,
            cursor,
            clicked,
        ),
{
    lemma_pass_result_same_geometry(pass_result(s, cursor, clicked), s, cursor, clicked);
}

/// The system that sets the interaction for all UI nodes based on the frame's
/// cursor, mouse button and touch activity. The cursor source decides whether
/// a pointer is active; whatever it reports, the result is the focus pass for
/// that sample.
pub fn ui_focus_system<C: CursorSource>(
    windows: &C,
    mouse_button_input: &MouseButtonState,
    touches_input: &Vec<TouchEvent>,
    nodes: &mut Vec<UiNode>,
)
    ensures
        exists|c: Option<CursorPosition>|
            final(nodes)@ == pass_result(
                old(nodes)@,
                c,
                spec_click_edge(*mouse_button_input, touches_input@),
            ),
{
    let cursor_position = windows.get_cursor_position();
    let mouse_clicked = click_edge(mouse_button_input, touches_input);
    focus_pass(nodes, cursor_position, mouse_clicked);
}

} // verus!
