//! The order in which a statement lists transactions, and which of them it lists.

use crate::models::transacao::Transacao;
use vstd::prelude::*;

verus! {

/// How many transactions a statement lists at most.
pub const ULTIMAS: usize = 10;

/// No transaction in `list` stands before one that is newer than it.
pub open spec fn newest_first(list: Seq<Transacao>) -> bool {
    forall|i: int, j: int| 0 <= i < j < list.len() ==> !(#[trigger] list[j]).newer_than(#[trigger] list[i])
}

/// Every transaction in `log` is newer than all that stand before it.
pub open spec fn oldest_first(log: Seq<Transacao>) -> bool {
    forall|i: int, j: int| 0 <= i < j < log.len() ==> (#[trigger] log[j]).newer_than(#[trigger] log[i])
}

/// `list` with `t` put behind the transactions that are newer than it.
pub open spec fn placed(list: Seq<Transacao>, t: Transacao) -> Seq<Transacao>
    decreases list.len(),
{
    if list.len() > 0 && list[0].newer_than(t) {
        seq![list[0]] + placed(list.skip(1), t)
    } else {
        seq![t] + list
    }
}

/// The transactions of `rows`, the newest first.
pub open spec fn by_newest(rows: Seq<Transacao>) -> Seq<Transacao>
    decreases rows.len(),
{
    if rows.len() == 0 {
        Seq::empty()
    } else {
        placed(by_newest(rows.skip(1)), rows[0])
    }
}

/// What a statement lists of `rows`: the newest ten, the newest first.
pub open spec fn ultimas(rows: Seq<Transacao>) -> Seq<Transacao> {
    if rows.len() <= ULTIMAS {
        by_newest(rows)
    } else {
        by_newest(rows).take(ULTIMAS as int)
    }
}

/// The last ten transactions of `log`, or all there are, the last first.
pub open spec fn latest_first(log: Seq<Transacao>) -> Seq<Transacao> {
    if log.len() <= ULTIMAS {
        log.reverse()
    } else {
        log.reverse().take(ULTIMAS as int)
    }
}

/// Placing `t` is inserting it at the first index whose transaction is not
/// newer than `t`.
pub proof fn lemma_placed_at(list: Seq<Transacao>, t: Transacao, at: int)
    requires
        0 <= at <= list.len(),
        forall|i: int| 0 <= i < at ==> (#[trigger] list[i]).newer_than(t),
        at < list.len() ==> !list[at].newer_than(t),
    ensures
        placed(list, t) == list.insert(at, t),
    decreases list.len(),
{
    if at == 0 {
        assert(seq![t] + list =~= list.insert(0, t));
    } else {
        let rest = list.skip(1);
        assert forall|i: int| 0 <= i < at - 1 implies (#[trigger] rest[i]).newer_than(t) by {
            assert(rest[i] == list[i + 1]);
        }
        lemma_placed_at(rest, t, at - 1);
        assert(seq![list[0]] + rest.insert(at - 1, t) =~= list.insert(at, t));
    }
}

/// Placing a transaction keeps all that were there and adds that one.
pub proof fn lemma_placed_holds(list: Seq<Transacao>, t: Transacao)
    ensures
        placed(list, t).len() == list.len() + 1,
        placed(list, t).to_multiset() == list.to_multiset().insert(t),
    decreases list.len(),
{
    broadcast use vstd::seq_lib::group_to_multiset_ensures;

    if list.len() > 0 && list[0].newer_than(t) {
        let rest = list.skip(1);
        lemma_placed_holds(rest, t);
        let tail = placed(rest, t);
        assert(seq![list[0]] + tail =~= tail.insert(0, list[0]));
        assert(list =~= rest.insert(0, list[0]));
        assert(tail.insert(0, list[0]).to_multiset() =~= tail.to_multiset().insert(list[0]));
        assert(rest.insert(0, list[0]).to_multiset() =~= rest.to_multiset().insert(list[0]));
        assert(placed(list, t).to_multiset() =~= list.to_multiset().insert(t));
    } else {
        assert(seq![t] + list =~= list.insert(0, t));
        assert(list.insert(0, t).to_multiset() =~= list.to_multiset().insert(t));
    }
}

/// Placing a transaction in a list that has the newest first leaves the
/// newest first.
pub proof fn lemma_placed_newest_first(list: Seq<Transacao>, t: Transacao)
    requires
        newest_first(list),
    ensures
        newest_first(placed(list, t)),
    decreases list.len(),
{
    if list.len() > 0 && list[0].newer_than(t) {
        let rest = list.skip(1);
        assert forall|i: int, j: int| 0 <= i < j < rest.len() implies !(#[trigger] rest[j]).newer_than(
            #[trigger] rest[i],
        ) by {
            assert(rest[i] == list[i + 1] && rest[j] == list[j + 1]);
        }
        lemma_placed_newest_first(rest, t);
        lemma_placed_holds(rest, t);
        let tail = placed(rest, t);
        let out = seq![list[0]] + tail;
        assert forall|i: int, j: int| 0 <= i < j < out.len() implies !(#[trigger] out[j]).newer_than(
            #[trigger] out[i],
        ) by {
            if i == 0 {
                // every transaction of `tail` is `t` or one of `rest`
                broadcast use vstd::seq_lib::group_to_multiset_ensures;

                assert(out[j] == tail[j - 1]);
                assert(tail.to_multiset().count(tail[j - 1]) > 0);
                if tail[j - 1] != t {
                    assert(rest.to_multiset().count(tail[j - 1]) > 0);
                    let k = choose|k: int| 0 <= k < rest.len() && rest[k] == tail[j - 1];
                    assert(rest[k] == list[k + 1]);
                }
            } else {
                assert(out[i] == tail[i - 1] && out[j] == tail[j - 1]);
            }
        }
    } else {
        let out = seq![t] + list;
        assert forall|i: int, j: int| 0 <= i < j < out.len() implies !(#[trigger] out[j]).newer_than(
            #[trigger] out[i],
        ) by {
            if i == 0 {
                assert(out[j] == list[j - 1]);
                if j > 1 {
                    assert(!list[j - 1].newer_than(list[0]));
                }
            } else {
                assert(out[i] == list[i - 1] && out[j] == list[j - 1]);
            }
        }
    }
}

/// Ordering loses no transaction and invents none.
pub proof fn lemma_by_newest_holds(rows: Seq<Transacao>)
    ensures
        by_newest(rows).len() == rows.len(),
        by_newest(rows).to_multiset() == rows.to_multiset(),
    decreases rows.len(),
{
    broadcast use vstd::seq_lib::group_to_multiset_ensures;

    if rows.len() == 0 {
        assert(rows =~= Seq::empty());
    } else {
        let rest = rows.skip(1);
        lemma_by_newest_holds(rest);
        lemma_placed_holds(by_newest(rest), rows[0]);
        assert(rows =~= rest.insert(0, rows[0]));
        assert(rest.insert(0, rows[0]).to_multiset() =~= rest.to_multiset().insert(rows[0]));
    }
}

/// Ordering puts the newest first.
pub proof fn lemma_by_newest_ordered(rows: Seq<Transacao>)
    ensures
        newest_first(by_newest(rows)),
    decreases rows.len(),
{
    if rows.len() > 0 {
        lemma_by_newest_ordered(rows.skip(1));
        lemma_placed_newest_first(by_newest(rows.skip(1)), rows[0]);
    }
}

/// What a statement lists is the newest first, holds ten transactions or
/// all there are, and leaves out none that is newer than one it lists.
pub proof fn lemma_ultimas(rows: Seq<Transacao>)
    ensures
        ultimas(rows).len() == if rows.len() <= ULTIMAS { rows.len() } else { ULTIMAS as nat },
        newest_first(ultimas(rows)),
        ultimas(rows) == by_newest(rows).take(ultimas(rows).len() as int),
        by_newest(rows).to_multiset() == rows.to_multiset(),
        forall|i: int, j: int|
            0 <= i < ultimas(rows).len() <= j < rows.len() ==> !(#[trigger] by_newest(rows)[j]).newer_than(
                #[trigger] ultimas(rows)[i],
            ),
{
    lemma_by_newest_holds(rows);
    lemma_by_newest_ordered(rows);
    let all = by_newest(rows);
    let listed = ultimas(rows);
    assert(listed =~= all.take(listed.len() as int));
    assert forall|i: int, j: int| 0 <= i < listed.len() <= j < rows.len() implies !(#[trigger] all[j]).newer_than(
        #[trigger] listed[i],
    ) by {
        assert(listed[i] == all[i]);
    }
    assert forall|i: int, j: int| 0 <= i < j < listed.len() implies !(#[trigger] listed[j]).newer_than(
        #[trigger] listed[i],
    ) by {
        assert(listed[i] == all[i] && listed[j] == all[j]);
    }
}

/// Where each transaction of a log is newer than all recorded before it,
/// the newest first is the log read backwards.
pub proof fn lemma_by_newest_of_log(log: Seq<Transacao>)
    requires
        oldest_first(log),
    ensures
        by_newest(log) == log.reverse(),
    decreases log.len(),
{
    if log.len() == 0 {
        assert(log.reverse() =~= Seq::empty());
    } else {
        let rest = log.skip(1);
        assert forall|i: int, j: int| 0 <= i < j < rest.len() implies (#[trigger] rest[j]).newer_than(
            #[trigger] rest[i],
        ) by {
            assert(rest[i] == log[i + 1] && rest[j] == log[j + 1]);
        }
        lemma_by_newest_of_log(rest);
        let back = rest.reverse();
        assert forall|i: int| 0 <= i < back.len() implies (#[trigger] back[i]).newer_than(log[0]) by {
            assert(back[i] == rest[rest.len() - 1 - i]);
            assert(rest[rest.len() - 1 - i] == log[rest.len() - i]);
        }
        lemma_placed_at(back, log[0], back.len() as int);
        assert(back.insert(back.len() as int, log[0]) =~= log.reverse());
    }
}

/// A list that has the newest first is in order already.
pub proof fn lemma_by_newest_of_ordered(list: Seq<Transacao>)
    requires
        newest_first(list),
    ensures
        by_newest(list) == list,
    decreases list.len(),
{
    if list.len() > 0 {
        let rest = list.skip(1);
        assert forall|i: int, j: int| 0 <= i < j < rest.len() implies !(#[trigger] rest[j]).newer_than(
            #[trigger] rest[i],
        ) by {
            assert(rest[i] == list[i + 1] && rest[j] == list[j + 1]);
        }
        lemma_by_newest_of_ordered(rest);
        if rest.len() > 0 {
            assert(rest[0] == list[1]);
            assert(!list[1].newer_than(list[0]));
        }
        assert(seq![list[0]] + rest =~= list);
    } else {
        assert(list =~= Seq::empty());
    }
}

/// What a statement lists needs no second listing: listing it again gives
/// the same list.
pub proof fn lemma_ultimas_twice(rows: Seq<Transacao>)
    ensures
        ultimas(ultimas(rows)) == ultimas(rows),
{
    lemma_ultimas(rows);
    lemma_by_newest_of_ordered(ultimas(rows));
}

/// A statement follows the order of the log: where each transaction of a
/// log is newer than all recorded before it, the statement lists the last
/// ten that were recorded, the last first.
pub proof fn lemma_ultimas_of_log(log: Seq<Transacao>)
    requires
        oldest_first(log),
    ensures
        ultimas(log) == latest_first(log),
        ultimas(log).len() == if log.len() <= ULTIMAS {
            log.len()
        } else {
            ULTIMAS as nat
        },
        forall|i: int| 0 <= i < ultimas(log).len() ==> #[trigger] ultimas(log)[i] == log[log.len() - 1 - i],
{
    lemma_by_newest_of_log(log);
}

/// Orders `rows` with the newest first and keeps the first ten. Of rows that
/// come in the order they were recorded, each newer than all before it, these
/// are the last ten, the last first; and ten rows or fewer that come with the
/// newest first stay as they are.
pub fn ultimas_transacoes(rows: Vec<Transacao>) -> (list: Vec<Transacao>)
    ensures
        list@ == ultimas(rows@),
        newest_first(list@),
        list@.len() == if rows@.len() <= ULTIMAS {
            rows@.len()
        } else {
            ULTIMAS as nat
        },
        oldest_first(rows@) ==> list@ == latest_first(rows@),
        newest_first(rows@) && rows@.len() <= ULTIMAS ==> list@ == rows@,
{
    proof {
        lemma_ultimas(rows@);
        if oldest_first(rows@) {
            lemma_ultimas_of_log(rows@);
        }
        if newest_first(rows@) {
            lemma_by_newest_of_ordered(rows@);
        }
    }
    let ghost all = rows@;
    let mut rows = rows;
    let mut list: Vec<Transacao> = Vec::new();
    assert(all.skip(all.len() as int) =~= Seq::empty());
    while rows.len() > 0
        invariant
            rows@.len() <= all.len(),
            rows@ == all.take(rows@.len() as int),
            list@ == by_newest(all.skip(rows@.len() as int)),
        decreases rows@.len(),
    {
        let ghost before = rows@.len() as int;
        let t = rows.pop().unwrap();
        let mut at: usize = 0;
        while at < list.len() && list[at].is_newer_than(&t)
            invariant
                at <= list@.len(),
                forall|i: int| 0 <= i < at ==> (#[trigger] list@[i]).newer_than(t),
            decreases list@.len() - at,
        {
            at += 1;
        }
        proof {
            lemma_placed_at(list@, t, at as int);
            assert(t == all[before - 1]);
            assert(all.skip(before - 1).skip(1) =~= all.skip(before));
            assert(rows@ =~= all.take(before - 1));
        }
        list.insert(at, t);
    }
    proof {
        lemma_by_newest_holds(all);
        assert(all.skip(0) =~= all);
    }
    list.truncate(ULTIMAS);
    assert(list@ =~= ultimas(all));
    list
}

} // verus!
