//! Sequences of window ids ordered from most recent to least recent.

use vstd::prelude::*;

verus! {

/// `history` without any occurrence of `con_id`, in the same order.
pub open spec fn without(history: Seq<i64>, con_id: i64) -> Seq<i64> {
    history.filter(|id: i64| id != con_id)
}

/// Where the entry at `pos` of `history` stands once `con_id` is dropped: behind
/// the entries before it that stay, or, if nothing stays from there on, last.
pub open spec fn pos_without(history: Seq<i64>, pos: int, con_id: i64) -> int {
    let end = if pos <= history.len() {
        pos
    } else {
        history.len() as int
    };
    let before = without(history.take(end), con_id).len();
    let rest = without(history, con_id).len();
    if before < rest {
        before as int
    } else {
        rest - 1
    }
}

/// `history` after `con_id` became the most recent window.
pub open spec fn touched(history: Seq<i64>, con_id: i64) -> Seq<i64> {
    seq![con_id] + without(history, con_id)
}

/// `history` after its entry at `pos` moved to the front. A position past the
/// end moves nothing.
pub open spec fn promoted(history: Seq<i64>, pos: int) -> Seq<i64> {
    if 0 <= pos < history.len() {
        seq![history[pos]] + history.remove(pos)
    } else {
        history
    }
}

/// `history` after each of `con_ids`, first to last, became the most recent
/// window.
pub open spec fn touched_all(history: Seq<i64>, con_ids: Seq<i64>) -> Seq<i64>
    decreases con_ids.len(),
{
    if con_ids.len() == 0 {
        history
    } else {
        touched(touched_all(history, con_ids.drop_last()), con_ids.last())
    }
}

/// What `without` keeps: every other id, no occurrence of `con_id`, and no id
/// twice if none stood there twice.
pub proof fn lemma_without(history: Seq<i64>, con_id: i64)
    ensures
        without(history, con_id).len() <= history.len(),
        !without(history, con_id).contains(con_id),
        forall|id: i64| #[trigger]
            without(history, con_id).contains(id) <==> history.contains(id) && id != con_id,
        history.no_duplicates() ==> without(history, con_id).no_duplicates(),
    decreases history.len(),
{
    reveal(Seq::filter);
    if history.len() > 0 {
        let init = history.drop_last();
        lemma_without(init, con_id);
        let kept = without(init, con_id);
        assert(history == init.push(history.last()));
        assert forall|id: i64| #[trigger] without(history, con_id).contains(id) <==> history.contains(
            id,
        ) && id != con_id by {
            if history.last() != con_id {
                assert(without(history, con_id) == kept.push(history.last()));
                assert(kept.push(history.last())[kept.len() as int] == history.last());
                if kept.contains(id) {
                    let k = kept.index_of(id);
                    assert(kept.push(history.last())[k] == id);
                }
            }
            if init.contains(id) {
                let k = init.index_of(id);
                assert(history[k] == id);
            }
            if history.contains(id) {
                let k = history.index_of(id);
                if k < init.len() {
                    assert(init[k] == id);
                }
            }
        }
        if history.no_duplicates() {
            assert(!init.contains(history.last())) by {
                if init.contains(history.last()) {
                    let k = init.index_of(history.last());
                    assert(history[k] == history[history.len() - 1]);
                }
            }
            assert(!kept.contains(history.last()));
            assert forall|i: int, j: int|
                0 <= i < without(history, con_id).len() && 0 <= j < without(history, con_id).len()
                    && i != j implies without(history, con_id)[i] != without(history, con_id)[j] by {
                if i < kept.len() {
                    assert(kept.contains(kept[i]));
                }
                if j < kept.len() {
                    assert(kept.contains(kept[j]));
                }
            }
        }
    }
}

/// Dropping an id that is not there changes nothing.
pub proof fn lemma_without_absent(history: Seq<i64>, con_id: i64)
    requires
        !history.contains(con_id),
    ensures
        without(history, con_id) == history,
    decreases history.len(),
{
    reveal(Seq::filter);
    if history.len() > 0 {
        let init = history.drop_last();
        assert(history[history.len() - 1] == history.last());
        assert(!init.contains(con_id)) by {
            if init.contains(con_id) {
                assert(history[init.index_of(con_id)] == con_id);
            }
        }
        lemma_without_absent(init, con_id);
        assert(history == init.push(history.last()));
    }
}

/// Where no id occurs twice, dropping the id at `pos` takes out that entry
/// and no other.
pub proof fn lemma_without_at(history: Seq<i64>, pos: int)
    requires
        history.no_duplicates(),
        0 <= pos < history.len(),
    ensures
        without(history, history[pos]) == history.remove(pos),
{
    let con_id = history[pos];
    let before = history.subrange(0, pos);
    let after = history.subrange(pos + 1, history.len() as int);
    let rest = seq![con_id] + after;
    assert(history == before + rest);
    Seq::filter_distributes_over_add(before, rest, |id: i64| id != con_id);
    Seq::filter_distributes_over_add(seq![con_id], after, |id: i64| id != con_id);
    assert(!before.contains(con_id));
    assert(!after.contains(con_id));
    lemma_without_absent(before, con_id);
    lemma_without_absent(after, con_id);
    assert(without(seq![con_id], con_id) == Seq::<i64>::empty()) by {
        lemma_without(seq![con_id], con_id);
        let kept = without(seq![con_id], con_id);
        if kept.len() > 0 {
            assert(kept.contains(kept[0]));
            assert(seq![con_id].contains(kept[0]));
        }
    }
    assert(before + (Seq::<i64>::empty() + after) == history.remove(pos));
}

/// Dropping an id from a sequence that starts with it.
pub proof fn lemma_without_first(con_id: i64, rest: Seq<i64>)
    ensures
        without(seq![con_id] + rest, con_id) == without(rest, con_id),
{
    Seq::filter_distributes_over_add(seq![con_id], rest, |id: i64| id != con_id);
    lemma_without_at(seq![con_id], 0);
    assert(without(seq![con_id], con_id) =~= Seq::<i64>::empty());
    assert(Seq::<i64>::empty() + without(rest, con_id) =~= without(rest, con_id));
}

/// Dropping an id from a sequence that starts with another one.
pub proof fn lemma_without_past_first(first: i64, rest: Seq<i64>, con_id: i64)
    requires
        first != con_id,
    ensures
        without(seq![first] + rest, con_id) == seq![first] + without(rest, con_id),
{
    Seq::filter_distributes_over_add(seq![first], rest, |id: i64| id != con_id);
    assert(!seq![first].contains(con_id));
    lemma_without_absent(seq![first], con_id);
}

/// Where no id occurs twice, an entry that is not dropped keeps its id at the
/// position that it gets: one further to the front if the dropped id stood
/// before it, its old one otherwise.
pub proof fn lemma_pos_without(history: Seq<i64>, pos: int, con_id: i64)
    requires
        history.no_duplicates(),
        0 <= pos < history.len(),
        history[pos] != con_id,
    ensures
        0 <= pos_without(history, pos, con_id) < without(history, con_id).len(),
        without(history, con_id)[pos_without(history, pos, con_id)] == history[pos],
        history.contains(con_id) ==> pos_without(history, pos, con_id) == (if history.index_of(
            con_id,
        ) < pos {
            pos - 1
        } else {
            pos
        }),
        !history.contains(con_id) ==> pos_without(history, pos, con_id) == pos,
{
    let head = history.take(pos);
    if history.contains(con_id) {
        let i = history.index_of(con_id);
        lemma_without_at(history, i);
        if i < pos {
            assert(head[i] == con_id);
            lemma_without_at(head, i);
        } else {
            assert(!head.contains(con_id)) by {
                if head.contains(con_id) {
                    assert(history[head.index_of(con_id)] == history[i]);
                }
            }
            lemma_without_absent(head, con_id);
        }
    } else {
        assert(!head.contains(con_id)) by {
            if head.contains(con_id) {
                assert(history[head.index_of(con_id)] == con_id);
            }
        }
        lemma_without_absent(head, con_id);
        lemma_without_absent(history, con_id);
    }
}

/// A touched history starts with the touched id, holds it and what it held
/// before, and holds nothing twice if it did not before.
pub proof fn lemma_touched(history: Seq<i64>, con_id: i64)
    ensures
        touched(history, con_id).len() >= 1,
        touched(history, con_id)[0] == con_id,
        touched(history, con_id).len() <= history.len() + 1,
        forall|id: i64| #[trigger]
            touched(history, con_id).contains(id) <==> history.contains(id) || id == con_id,
        history.no_duplicates() ==> touched(history, con_id).no_duplicates(),
        history.no_duplicates() ==> touched(history, con_id).len() >= history.len(),
{
    lemma_without(history, con_id);
    if history.contains(con_id) {
        if history.no_duplicates() {
            lemma_without_at(history, history.index_of(con_id));
        }
    } else {
        lemma_without_absent(history, con_id);
    }
    let kept = without(history, con_id);
    let new = touched(history, con_id);
    assert forall|id: i64| #[trigger] new.contains(id) <==> history.contains(id) || id == con_id by {
        if kept.contains(id) {
            assert(new[kept.index_of(id) + 1] == id);
        }
        if new.contains(id) {
            let k = new.index_of(id);
            if k > 0 {
                assert(kept[k - 1] == id);
            }
        }
        assert(new[0] == con_id);
        if history.contains(id) && id != con_id {
            assert(kept.contains(id));
        }
    }
    if history.no_duplicates() {
        assert forall|i: int, j: int|
            0 <= i < new.len() && 0 <= j < new.len() && i != j implies new[i] != new[j] by {
            if i > 0 {
                assert(kept.contains(kept[i - 1]));
            }
            if j > 0 {
                assert(kept.contains(kept[j - 1]));
            }
        }
    }
}

/// A promotion moves entries around and neither adds nor drops any.
pub proof fn lemma_promoted(history: Seq<i64>, pos: int)
    ensures
        promoted(history, pos).len() == history.len(),
        promoted(history, pos).to_multiset() == history.to_multiset(),
        forall|id: i64| #[trigger]
            promoted(history, pos).contains(id) <==> history.contains(id),
        history.no_duplicates() ==> promoted(history, pos).no_duplicates(),
{
    if 0 <= pos < history.len() {
        let con_id = history[pos];
        let rest = history.remove(pos);
        let new = promoted(history, pos);
        assert(new == rest.insert(0, con_id));
        vstd::seq_lib::to_multiset_remove(history, pos);
        vstd::seq_lib::to_multiset_insert(rest, 0, con_id);
        vstd::seq_lib::to_multiset_contains(history, con_id);
        assert(history.contains(con_id));
        assert(new.to_multiset() =~= history.to_multiset());
        assert forall|id: i64| #[trigger] new.contains(id) <==> history.contains(id) by {
            vstd::seq_lib::to_multiset_contains(history, id);
            vstd::seq_lib::to_multiset_contains(new, id);
        }
        if history.no_duplicates() {
            history.lemma_multiset_has_no_duplicates();
            new.lemma_multiset_has_no_duplicates_conv();
        }
    }
}

/// Where no id occurs twice, promoting an entry is the same as touching its id.
pub proof fn lemma_promoted_is_touched(history: Seq<i64>, pos: int)
    requires
        history.no_duplicates(),
        0 <= pos < history.len(),
    ensures
        promoted(history, pos) == touched(history, history[pos]),
{
    lemma_without_at(history, pos);
}

/// `a` stands before `b` somewhere in `history`: it is the more recent one.
pub open spec fn stands_before(history: Seq<i64>, a: i64, b: i64) -> bool {
    exists|i: int, j: int|
        #![trigger history[i], history[j]]
        0 <= i < j < history.len() && history[i] == a && history[j] == b
}

/// What stands before what once an entry comes to the end.
proof fn lemma_before_push(history: Seq<i64>, last: i64, a: i64, b: i64)
    ensures
        stands_before(history.push(last), a, b) <==> stands_before(history, a, b) || (last == b
            && history.contains(a)),
{
    let new = history.push(last);
    if stands_before(new, a, b) {
        let (i, j) = choose|i: int, j: int|
            #![trigger new[i], new[j]]
            0 <= i < j < new.len() && new[i] == a && new[j] == b;
        assert(history[i] == a);
        if j < history.len() {
            assert(history[j] == b);
        }
    }
    if stands_before(history, a, b) {
        let (i, j) = choose|i: int, j: int|
            #![trigger history[i], history[j]]
            0 <= i < j < history.len() && history[i] == a && history[j] == b;
        assert(new[i] == a && new[j] == b);
    }
    if last == b && history.contains(a) {
        let i = history.index_of(a);
        assert(new[i] == a && new[history.len() as int] == b);
    }
}

/// What stands before what once an entry comes to the front.
pub proof fn lemma_before_first(first: i64, rest: Seq<i64>, a: i64, b: i64)
    ensures
        stands_before(seq![first] + rest, a, b) <==> stands_before(rest, a, b) || (first == a
            && rest.contains(b)),
{
    let new = seq![first] + rest;
    if stands_before(new, a, b) {
        let (i, j) = choose|i: int, j: int|
            #![trigger new[i], new[j]]
            0 <= i < j < new.len() && new[i] == a && new[j] == b;
        assert(rest[j - 1] == b);
        if i > 0 {
            assert(rest[i - 1] == a);
        }
    }
    if stands_before(rest, a, b) {
        let (i, j) = choose|i: int, j: int|
            #![trigger rest[i], rest[j]]
            0 <= i < j < rest.len() && rest[i] == a && rest[j] == b;
        assert(new[i + 1] == a && new[j + 1] == b);
    }
    if first == a && rest.contains(b) {
        let j = rest.index_of(b);
        assert(new[0] == a && new[j + 1] == b);
    }
}

/// Dropping an id keeps the order of the others.
pub proof fn law_dropping_keeps_order(history: Seq<i64>, con_id: i64, a: i64, b: i64)
    requires
        a != con_id,
        b != con_id,
    ensures
        stands_before(without(history, con_id), a, b) <==> stands_before(history, a, b),
    decreases history.len(),
{
    reveal(Seq::filter);
    if history.len() > 0 {
        let init = history.drop_last();
        let last = history.last();
        law_dropping_keeps_order(init, con_id, a, b);
        lemma_without(init, con_id);
        assert(history == init.push(last));
        lemma_before_push(init, last, a, b);
        lemma_before_push(without(init, con_id), last, a, b);
        assert(without(init, con_id).contains(a) <==> init.contains(a));
    }
}

/// Touching an id puts it before every other one and keeps the order of the
/// others.
pub proof fn law_touching_keeps_order(history: Seq<i64>, con_id: i64, a: i64, b: i64)
    requires
        a != con_id,
        b != con_id,
    ensures
        stands_before(touched(history, con_id), a, b) <==> stands_before(history, a, b),
        stands_before(touched(history, con_id), con_id, b) <==> history.contains(b),
        !stands_before(touched(history, con_id), a, con_id),
        !stands_before(touched(history, con_id), con_id, con_id),
{
    let kept = without(history, con_id);
    law_dropping_keeps_order(history, con_id, a, b);
    lemma_without(history, con_id);
    lemma_before_first(con_id, kept, a, b);
    lemma_before_first(con_id, kept, con_id, b);
    lemma_before_first(con_id, kept, a, con_id);
    lemma_before_first(con_id, kept, con_id, con_id);
    assert(kept.contains(b) <==> history.contains(b));
    assert forall|x: i64, y: i64| #[trigger] stands_before(kept, x, y) implies kept.contains(x)
        && kept.contains(y) by {
        let (i, j) = choose|i: int, j: int|
            #![trigger kept[i], kept[j]]
            0 <= i < j < kept.len() && kept[i] == x && kept[j] == y;
        assert(kept.contains(kept[i]) && kept.contains(kept[j]));
    }
}

/// A promotion brings the entry at `pos` to the front, moves those before it
/// back by one and leaves the others where they are; a position past the end
/// leaves everything where it is.
pub proof fn law_promotion_moves_one_entry(history: Seq<i64>, pos: int)
    requires
        0 <= pos,
    ensures
        promoted(history, pos).len() == history.len(),
        pos < history.len() ==> promoted(history, pos)[0] == history[pos],
        pos < history.len() ==> forall|i: int|
            0 <= i < pos ==> promoted(history, pos)[i + 1] == #[trigger] history[i],
        forall|i: int|
            pos < i < history.len() ==> promoted(history, pos)[i] == #[trigger] history[i],
        pos >= history.len() ==> promoted(history, pos) == history,
{
}

/// A promotion keeps the order of the entries other than the promoted one.
pub proof fn law_promotion_keeps_order(history: Seq<i64>, pos: int, a: i64, b: i64)
    requires
        0 <= pos < history.len(),
        a != history[pos],
        b != history[pos],
    ensures
        stands_before(promoted(history, pos), a, b) <==> stands_before(history, a, b),
{
    let rest = history.remove(pos);
    lemma_before_first(history[pos], rest, a, b);
    if stands_before(rest, a, b) {
        let (i, j) = choose|i: int, j: int|
            #![trigger rest[i], rest[j]]
            0 <= i < j < rest.len() && rest[i] == a && rest[j] == b;
        let k = if i < pos {
            i
        } else {
            i + 1
        };
        let l = if j < pos {
            j
        } else {
            j + 1
        };
        assert(history[k] == a && history[l] == b);
    }
    if stands_before(history, a, b) {
        let (i, j) = choose|i: int, j: int|
            #![trigger history[i], history[j]]
            0 <= i < j < history.len() && history[i] == a && history[j] == b;
        let k = if i < pos {
            i
        } else {
            i - 1
        };
        let l = if j < pos {
            j
        } else {
            j - 1
        };
        assert(rest[k] == a && rest[l] == b);
    }
}

/// How many of the first `end` entries of `history` are not `con_id`.
pub fn count_others(history: &Vec<i64>, end: usize, con_id: i64) -> (count: usize)
    ensures
        count == without(
            history@.take(
                if end <= history@.len() {
                    end as int
                } else {
                    history@.len() as int
                },
            ),
            con_id,
        ).len(),
{
    let mut count: usize = 0;
    let mut i: usize = 0;
    proof {
        reveal(Seq::filter);
        assert(history@.take(0) == Seq::<i64>::empty());
    }
    while i < end && i < history.len()
        invariant
            i <= end,
            i <= history.len(),
            count <= i,
            count == without(history@.take(i as int), con_id).len(),
        decreases history.len() - i,
    {
        proof {
            reveal(Seq::filter);
            assert(history@.take(i + 1).drop_last() == history@.take(i as int));
        }
        if history[i] != con_id {
            count += 1;
        }
        i += 1;
    }
    count
}

/// Drops every occurrence of `con_id` from `history`.
pub fn remove_all(history: &mut Vec<i64>, con_id: i64)
    ensures
        final(history)@ == without(old(history)@, con_id),
{
    let mut kept: Vec<i64> = Vec::new();
    let mut i: usize = 0;
    proof {
        reveal(Seq::filter);
        assert(history@.take(0) == Seq::<i64>::empty());
    }
    while i < history.len()
        invariant
            i <= history.len(),
            *history == *old(history),
            kept@ == without(history@.take(i as int), con_id),
        decreases history.len() - i,
    {
        let id: i64 = history[i];
        proof {
            reveal(Seq::filter);
            assert(history@.take(i + 1).drop_last() == history@.take(i as int));
        }
        if id != con_id {
            kept.push(id);
        }
        i += 1;
    }
    proof {
        assert(history@.take(history.len() as int) == history@);
    }
    *history = kept;
}

} // verus!
