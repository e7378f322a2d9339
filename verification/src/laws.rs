//! Laws of the registry and the audit log, each proved once and for all:
//! what a fresh add means for later lookups, that removal is idempotent and
//! total for both keys, and how an accepted scan extends exactly one user's
//! fetched history.

use vstd::prelude::*;

use crate::auth::LogRowView;
use crate::auth::UnlockLogView;
use crate::auth::UserView;
use crate::auth::has_card;
use crate::auth::has_student_id;
use crate::auth::history_of;
use crate::auth::registry_wf;
use crate::auth::user_with_student_id;
use crate::auth::without_student;

verus! {

/// Law: adding a user whose student id and card are both fresh keeps the
/// registry well formed, and each of the two lookups afterwards identifies
/// exactly the added user.
pub proof fn lemma_add_then_query(users: Seq<UserView>, u: UserView)
    requires
        registry_wf(users),
        !has_student_id(users, u.student_id),
        !has_card(users, u.card),
    ensures
        registry_wf(users.push(u)),
        has_student_id(users.push(u), u.student_id),
        has_card(users.push(u), u.card),
        forall|w: UserView|
            users.push(u).contains(w) && w.student_id == u.student_id ==> w == u,
        forall|w: UserView| users.push(u).contains(w) && w.card == u.card ==> w == u,
{
    let p = users.push(u);
    let n = users.len() as int;
    assert(p[n] == u);
    assert forall|i: int, j: int|
        0 <= i < p.len() && 0 <= j < p.len() && i != j implies p[i].student_id != p[j].student_id
        && p[i].card != p[j].card by {
        if i < n && j < n {
            assert(p[i] == users[i]);
            assert(p[j] == users[j]);
        } else if i < n && j == n {
            assert(p[i] == users[i]);
            if users[i].student_id == u.student_id {
                assert(has_student_id(users, u.student_id));
            }
            if users[i].card == u.card {
                assert(has_card(users, u.card));
            }
        } else {
            assert(j < n && i == n);
            assert(p[j] == users[j]);
            if users[j].student_id == u.student_id {
                assert(has_student_id(users, u.student_id));
            }
            if users[j].card == u.card {
                assert(has_card(users, u.card));
            }
        }
    }
    assert forall|w: UserView|
        p.contains(w) && w.student_id == u.student_id implies w == u by {
        let k = choose|k: int| 0 <= k < p.len() && p[k] == w;
        if k < n {
            assert(users[k] == w);
            assert(has_student_id(users, u.student_id));
        }
    }
    assert forall|w: UserView| p.contains(w) && w.card == u.card implies w == u by {
        let k = choose|k: int| 0 <= k < p.len() && p[k] == w;
        if k < n {
            assert(users[k] == w);
            assert(has_card(users, u.card));
        }
    }
}

/// Law: removing a student id that is not registered is a no-op; the
/// registry is unchanged.
pub proof fn lemma_remove_absent_is_noop(users: Seq<UserView>, sid: Seq<char>)
    requires
        !has_student_id(users, sid),
    ensures
        without_student(users, sid) == users,
    decreases users.len(),
{
    if users.len() == 0 {
        assert(without_student(users, sid) =~= users);
    } else {
        let init = users.drop_last();
        let last = users.last();
        assert(!has_student_id(init, sid)) by {
            if has_student_id(init, sid) {
                let i = choose|i: int| 0 <= i < init.len() && init[i].student_id == sid;
                assert(users[i] == init[i]);
                assert(has_student_id(users, sid));
            }
        }
        lemma_remove_absent_is_noop(init, sid);
        assert(last.student_id != sid) by {
            if last.student_id == sid {
                assert(users[users.len() - 1] == last);
                assert(has_student_id(users, sid));
            }
        }
        assert(without_student(users, sid) =~= users);
    }
}

/// Law: removal keeps the registry well formed, leaves no user with the
/// removed student id, and keeps exactly the users with other student ids.
pub proof fn lemma_without_student_properties(users: Seq<UserView>, sid: Seq<char>)
    requires
        registry_wf(users),
    ensures
        registry_wf(without_student(users, sid)),
        !has_student_id(without_student(users, sid), sid),
        forall|w: UserView|
            #[trigger] without_student(users, sid).contains(w) <==> users.contains(w)
                && w.student_id != sid,
    decreases users.len(),
{
    let res = without_student(users, sid);
    if users.len() == 0 {
        assert(res =~= Seq::<UserView>::empty());
        assert forall|w: UserView| !(#[trigger] res.contains(w)) by {
            if res.contains(w) {
                let k = choose|k: int| 0 <= k < res.len() && res[k] == w;
            }
        }
        assert forall|w: UserView| !(#[trigger] users.contains(w)) by {
            if users.contains(w) {
                let k = choose|k: int| 0 <= k < users.len() && users[k] == w;
            }
        }
    } else {
        let init = users.drop_last();
        let last = users.last();
        let n = users.len() as int;
        assert(registry_wf(init)) by {
            assert forall|i: int, j: int|
                0 <= i < init.len() && 0 <= j < init.len() && i != j implies init[i].student_id
                != init[j].student_id && init[i].card != init[j].card by {
                assert(init[i] == users[i]);
                assert(init[j] == users[j]);
            }
        }
        lemma_without_student_properties(init, sid);
        let wres = without_student(init, sid);
        assert(users[n - 1] == last);
        // Membership of `users` splits into membership of `init` or being `last`.
        assert forall|w: UserView|
            #[trigger] users.contains(w) implies init.contains(w) || w == last by {
            let k = choose|k: int| 0 <= k < users.len() && users[k] == w;
            if k < n - 1 {
                assert(init[k] == users[k]);
                assert(init.contains(w));
            }
        }
        assert forall|w: UserView| #[trigger] init.contains(w) implies users.contains(w) by {
            let k = choose|k: int| 0 <= k < init.len() && init[k] == w;
            assert(users[k] == init[k]);
        }
        assert(users.contains(last));
        if last.student_id == sid {
            assert(res == wres);
            assert forall|w: UserView|
                users.contains(w) && w.student_id != sid implies #[trigger] res.contains(w) by {
                assert(init.contains(w) || w == last);
            }
        } else {
            assert(res == wres.push(last));
            // `last`'s keys clash with no element kept from `init`.
            assert forall|w: UserView|
                #[trigger] wres.contains(w) implies w.student_id != last.student_id && w.card
                != last.card by {
                assert(init.contains(w));
                let k = choose|k: int| 0 <= k < init.len() && init[k] == w;
                assert(users[k] == w);
                assert(users[k].student_id != users[n - 1].student_id);
                assert(users[k].card != users[n - 1].card);
            }
            assert(!has_student_id(wres, last.student_id)) by {
                if has_student_id(wres, last.student_id) {
                    let i = choose|i: int|
                        0 <= i < wres.len() && wres[i].student_id == last.student_id;
                    assert(wres.contains(wres[i]));
                }
            }
            assert(!has_card(wres, last.card)) by {
                if has_card(wres, last.card) {
                    let i = choose|i: int| 0 <= i < wres.len() && wres[i].card == last.card;
                    assert(wres.contains(wres[i]));
                }
            }
            lemma_add_then_query(wres, last);
            // Membership of the push splits into membership of `wres` or being `last`.
            assert forall|w: UserView|
                #[trigger] res.contains(w) implies wres.contains(w) || w == last by {
                let k = choose|k: int| 0 <= k < res.len() && res[k] == w;
                if k < wres.len() {
                    assert(wres[k] == res[k]);
                }
            }
            assert(wres.contains(last) || res[wres.len() as int] == last);
            assert forall|w: UserView|
                users.contains(w) && w.student_id != sid implies #[trigger] res.contains(w) by {
                if w == last {
                    assert(res[wres.len() as int] == last);
                } else {
                    assert(init.contains(w));
                    assert(wres.contains(w));
                    let k = choose|k: int| 0 <= k < wres.len() && wres[k] == w;
                    assert(res[k] == wres[k]);
                }
            }
            assert forall|w: UserView|
                #[trigger] res.contains(w) implies users.contains(w) && w.student_id != sid by {
                if w != last {
                    assert(wres.contains(w));
                }
            }
        }
        assert(!has_student_id(res, sid)) by {
            if has_student_id(res, sid) {
                let i = choose|i: int| 0 <= i < res.len() && res[i].student_id == sid;
                assert(res.contains(res[i]));
            }
        }
    }
}

/// Law: after removing a registered student id, the lookup by that id and
/// the lookup by that user's former card both come back empty.
pub proof fn lemma_remove_then_query(users: Seq<UserView>, sid: Seq<char>)
    requires
        registry_wf(users),
        has_student_id(users, sid),
    ensures
        registry_wf(without_student(users, sid)),
        !has_student_id(without_student(users, sid), sid),
        !has_card(without_student(users, sid), user_with_student_id(users, sid).card),
{
    lemma_without_student_properties(users, sid);
    let u = user_with_student_id(users, sid);
    let iu = choose|i: int| 0 <= i < users.len() && users[i].student_id == sid;
    assert(u == users[iu]);
    let res = without_student(users, sid);
    if has_card(res, u.card) {
        let i = choose|i: int| 0 <= i < res.len() && res[i].card == u.card;
        let w = res[i];
        assert(res.contains(w));
        assert(users.contains(w) && w.student_id != sid);
        let k = choose|k: int| 0 <= k < users.len() && users[k] == w;
        assert(k != iu);
        assert(users[k].card != users[iu].card);
    }
}

/// Law: appending the unlock row of a registered user extends that user's
/// fetched history by exactly one entry, carrying the user's name at append
/// time and the appended timestamp.
pub proof fn lemma_append_then_fetch(
    users: Seq<UserView>,
    log: Seq<LogRowView>,
    sid: Seq<char>,
    ts: int,
)
    requires
        has_student_id(users, sid),
    ensures
        ({
            let u = user_with_student_id(users, sid);
            let log2 = log.push((LogRowView { card_id: u.card, unlock_at: ts }));
            let entry = (UnlockLogView { name: u.name, ts: ts });
            &&& history_of(users, log2, sid) == history_of(users, log, sid).push(entry)
            &&& history_of(users, log2, sid).len() == history_of(users, log, sid).len() + 1
            &&& history_of(users, log2, sid).contains(entry)
        }),
{
    let u = user_with_student_id(users, sid);
    let row = LogRowView { card_id: u.card, unlock_at: ts };
    let log2 = log.push(row);
    let entry = UnlockLogView { name: u.name, ts: ts };
    assert(log2.drop_last() =~= log);
    assert(log2.last() == row);
    assert(history_of(users, log2, sid) == history_of(users, log, sid).push(entry));
    let h2 = history_of(users, log2, sid);
    assert(h2[h2.len() - 1] == entry);
    assert(h2.contains(entry));
}

/// Law: an unlock row for any other card leaves a user's fetched history
/// exactly as it was; concurrent scans of distinct cards neither lose nor
/// duplicate one another's entries.
pub proof fn lemma_scan_isolation(
    users: Seq<UserView>,
    log: Seq<LogRowView>,
    row: LogRowView,
    sid: Seq<char>,
)
    requires
        has_student_id(users, sid) ==> row.card_id != user_with_student_id(users, sid).card,
    ensures
        history_of(users, log.push(row), sid) == history_of(users, log, sid),
{
    let log2 = log.push(row);
    assert(log2.drop_last() =~= log);
    assert(log2.last() == row);
    if !has_student_id(users, sid) {
        assert(history_of(users, log2, sid) == Seq::<UnlockLogView>::empty());
        assert(history_of(users, log, sid) == Seq::<UnlockLogView>::empty());
    } else {
        assert(history_of(users, log2, sid) == history_of(users, log, sid));
    }
}

/// How many of the rows carry the given card.
pub open spec fn rows_for(rows: Seq<LogRowView>, card: int) -> nat
    decreases rows.len(),
{
    if rows.len() == 0 {
        0
    } else {
        rows_for(rows.drop_last(), card) + if rows.last().card_id == card {
            1nat
        } else {
            0
        }
    }
}

/// Law: a batch of appended unlock rows, in whatever order the scans were
/// interleaved, grows a registered user's fetched history by exactly the
/// number of rows carrying that user's card: no entry is lost and none is
/// duplicated.
pub proof fn lemma_batch_scans_count(
    users: Seq<UserView>,
    log: Seq<LogRowView>,
    rows: Seq<LogRowView>,
    sid: Seq<char>,
)
    requires
        has_student_id(users, sid),
    ensures
        history_of(users, log + rows, sid).len() == history_of(users, log, sid).len() + rows_for(
            rows,
            user_with_student_id(users, sid).card,
        ),
    decreases rows.len(),
{
    if rows.len() == 0 {
        assert(log + rows =~= log);
    } else {
        lemma_batch_scans_count(users, log, rows.drop_last(), sid);
        let whole = log + rows;
        assert(whole.drop_last() =~= log + rows.drop_last());
        assert(whole.last() == rows.last());
        assert(whole.len() > 0);
    }
}

} // verus!
