//! The card/user registry, the append-only unlock audit log, and the
//! authorization decision taken when a card is presented to the reader.
//!
//! The registry keeps at most one user per student id and at most one user
//! per card; the audit log only ever grows, one row per accepted scan.

use vstd::prelude::*;

use crate::clock;

verus! {

/// Spec-level value of a [`User`] record.
pub struct UserView {
    pub student_id: Seq<char>,
    pub name: Seq<char>,
    pub card: int,
    pub created_at: Option<int>,
}

/// A registered user: an immutable student id, a display name, the card
/// identifier physically presented to the reader, and the creation time.
#[derive(Debug)]
pub struct User {
    /// Student id
    pub student_id: String,
    /// Student name
    pub name: String,
    /// Card id
    pub card: i64,
    /// Create time
    pub created_at: Option<i64>,
}

impl View for User {
    type V = UserView;

    open spec fn view(&self) -> UserView {
        UserView {
            student_id: self.student_id@,
            name: self.name@,
            card: self.card as int,
            created_at: match self.created_at {
                Some(t) => Some(t as int),
                None => None,
            },
        }
    }
}

impl Clone for User {
    fn clone(&self) -> (r: Self)
        ensures
            r@ == self@,
    {
        User {
            student_id: self.student_id.clone(),
            name: self.name.clone(),
            card: self.card,
            created_at: self.created_at,
        }
    }
}

impl User {
    /// Create a new user; the creation time is read from the system clock.
    pub fn new(student_id: String, name: String, card: i64) -> (r: User)
        ensures
            r@.student_id == student_id@,
            r@.name == name@,
            r@.card == card as int,
            r@.created_at is Some,
    {
        User {
            student_id,
            name,
            card,
            created_at: Some(clock::unix_now()),
        }
    }

    /// Append one unlock event for this user's student id at time `ts`. The
    /// card written into the row is the one registered under the student id
    /// at append time; an unregistered student id fails with `NotFound` and
    /// writes nothing. This is the audit log's only mutating operation.
    pub fn append_log(&self, mgr: &mut UserManager, ts: i64) -> (r: Result<(), AuthError>)
        requires
            old(mgr).wf(),
        ensures
            final(mgr).wf(),
            final(mgr).users_view() == old(mgr).users_view(),
            match r {
                Ok(()) => {
                    &&& has_student_id(old(mgr).users_view(), self.student_id@)
                    &&& final(mgr).log_view() == old(mgr).log_view().push(
                        (LogRowView {
                            card_id: user_with_student_id(
                                old(mgr).users_view(),
                                self.student_id@,
                            ).card,
                            unlock_at: ts as int,
                        }),
                    )
                },
                Err(e) => {
                    &&& e == AuthError::NotFound
                    &&& !has_student_id(old(mgr).users_view(), self.student_id@)
                    &&& final(mgr).log_view() == old(mgr).log_view()
                },
            },
    {
        match mgr.query_by_student_id(self.student_id.as_str()) {
            Some(found) => {
                proof {
                    let users = mgr.users_view();
                    let sid = self.student_id@;
                    let k = choose|k: int| 0 <= k < users.len() && users[k] == found@;
                    assert(has_student_id(users, sid));
                    let iu = choose|i: int| 0 <= i < users.len() && users[i].student_id == sid;
                    assert(k == iu);
                    assert(found@ == user_with_student_id(users, sid));
                }
                let ghost log_before = mgr.log_view();
                mgr.log.push(LogRow { card_id: found.card, unlock_at: ts });
                proof {
                    assert(mgr.log_view() =~= log_before.push(
                        (LogRowView { card_id: found.card as int, unlock_at: ts as int }),
                    ));
                }
                Ok(())
            },
            None => Err(AuthError::NotFound),
        }
    }

    /// Fetch this user's unlock history: every log row carrying the card
    /// registered under the student id at read time, joined with that user's
    /// current name, in log order. A removed or unknown user yields an empty
    /// history, not an error.
    pub fn fetch_log(self, mgr: &UserManager) -> (r: Vec<UnlockLog>)
        requires
            mgr.wf(),
        ensures
            entries_view(r@) == history_of(mgr.users_view(), mgr.log_view(), self.student_id@),
    {
        let mut out: Vec<UnlockLog> = Vec::new();
        proof {
            assert(entries_view(out@) =~= Seq::<UnlockLogView>::empty());
        }
        match mgr.query_by_student_id(self.student_id.as_str()) {
            None => {
                out
            },
            Some(found) => {
                proof {
                    let users = mgr.users_view();
                    let sid = self.student_id@;
                    let k = choose|k: int| 0 <= k < users.len() && users[k] == found@;
                    assert(has_student_id(users, sid));
                    let iu = choose|i: int| 0 <= i < users.len() && users[i].student_id == sid;
                    assert(k == iu);
                    assert(found@ == user_with_student_id(users, sid));
                    assert(history_of(users, mgr.log_view().take(0), sid) =~= Seq::<
                        UnlockLogView,
                    >::empty());
                }
                let mut i: usize = 0;
                while i < mgr.log.len()
                    invariant
                        i <= mgr.log.len(),
                        mgr.wf(),
                        has_student_id(mgr.users_view(), self.student_id@),
                        found@ == user_with_student_id(mgr.users_view(), self.student_id@),
                        entries_view(out@) == history_of(
                            mgr.users_view(),
                            mgr.log_view().take(i as int),
                            self.student_id@,
                        ),
                    decreases mgr.log.len() - i,
                {
                    let ghost entries_before = entries_view(out@);
                    let ghost prefix = mgr.log_view().take(i as int);
                    if mgr.log[i].card_id == found.card {
                        out.push(UnlockLog { name: found.name.clone(), ts: mgr.log[i].unlock_at });
                        proof {
                            assert(entries_view(out@) =~= entries_before.push(
                                (UnlockLogView {
                                    name: found@.name,
                                    ts: mgr.log_view()[i as int].unlock_at,
                                }),
                            ));
                        }
                    }
                    proof {
                        let longer = mgr.log_view().take(i + 1);
                        assert(longer.drop_last() =~= prefix);
                        assert(longer.last() == mgr.log_view()[i as int]);
                    }
                    i += 1;
                }
                proof {
                    assert(mgr.log_view().take(mgr.log.len() as int) =~= mgr.log_view());
                }
                out
            },
        }
    }
}

/// Spec-level value of a [`LogRow`].
pub struct LogRowView {
    pub card_id: int,
    pub unlock_at: int,
}

/// One row of the audit log: the card that triggered the unlock and the
/// event time. Rows are immutable once written and are never deleted.
#[derive(Clone, Copy, Debug, PartialEq, Eq, Structural)]
pub struct LogRow {
    pub card_id: i64,
    pub unlock_at: i64,
}

impl View for LogRow {
    type V = LogRowView;

    open spec fn view(&self) -> LogRowView {
        LogRowView { card_id: self.card_id as int, unlock_at: self.unlock_at as int }
    }
}

/// Spec-level value of an [`UnlockLog`] entry.
pub struct UnlockLogView {
    pub name: Seq<char>,
    pub ts: int,
}

/// One entry of a user's unlock history as read back: the display name of
/// the user joined on the card at read time, and the event time.
#[derive(Debug)]
pub struct UnlockLog {
    pub name: String,
    pub ts: i64,
}

impl View for UnlockLog {
    type V = UnlockLogView;

    open spec fn view(&self) -> UnlockLogView {
        UnlockLogView { name: self.name@, ts: self.ts as int }
    }
}

/// Errors of the registry and audit-log operations. A missing row on a
/// lookup is an empty result, not an error; `NotFound` only arises where an
/// operation needs a user that is not registered. `StorageUnavailable`
/// stands for an unreachable backing store, reported by the storage glue.
#[derive(Clone, Copy, Debug, PartialEq, Eq, Structural)]
pub enum AuthError {
    DuplicateKey,
    NotFound,
    StorageUnavailable,
}

/// Outcome of one scan event. A storage fault is kept apart from an unknown
/// card so that an operator can tell an outage from a bad card, even though
/// the lock stays closed either way.
#[derive(Clone, Copy, Debug, PartialEq, Eq, Structural)]
pub enum AuthDecision {
    Accepted,
    RejectedUnknownCard,
    RejectedStorage,
}

/// There is a user whose student id is `sid`.
pub open spec fn has_student_id(users: Seq<UserView>, sid: Seq<char>) -> bool {
    exists|i: int| 0 <= i < users.len() && users[i].student_id == sid
}

/// There is a user whose card is `card`.
pub open spec fn has_card(users: Seq<UserView>, card: int) -> bool {
    exists|i: int| 0 <= i < users.len() && users[i].card == card
}

/// The registry's invariant: student ids and cards are both unique keys.
pub open spec fn registry_wf(users: Seq<UserView>) -> bool {
    forall|i: int, j: int|
        0 <= i < users.len() && 0 <= j < users.len() && i != j ==> users[i].student_id
            != users[j].student_id && users[i].card != users[j].card
}

/// The user whose student id is `sid`; meaningful when one exists, and
/// unique when the registry is well formed.
pub open spec fn user_with_student_id(users: Seq<UserView>, sid: Seq<char>) -> UserView
    recommends
        has_student_id(users, sid),
{
    users[choose|i: int| 0 <= i < users.len() && users[i].student_id == sid]
}

/// The registry after removing the user with student id `sid`: every other
/// user is kept, in order.
pub open spec fn without_student(users: Seq<UserView>, sid: Seq<char>) -> Seq<UserView>
    decreases users.len(),
{
    if users.len() == 0 {
        Seq::empty()
    } else {
        let rest = without_student(users.drop_last(), sid);
        if users.last().student_id == sid {
            rest
        } else {
            rest.push(users.last())
        }
    }
}

/// The unlock history fetched for student id `sid`: the log rows whose card
/// is that user's card, joined at read time with the user's current name, in
/// log order. Empty when no such user is registered (orphaned rows stay in
/// the log but are unreachable through this path).
pub open spec fn history_of(users: Seq<UserView>, log: Seq<LogRowView>, sid: Seq<char>) -> Seq<
    UnlockLogView,
>
    decreases log.len(),
{
    if !has_student_id(users, sid) {
        Seq::empty()
    } else if log.len() == 0 {
        Seq::empty()
    } else {
        let earlier = history_of(users, log.drop_last(), sid);
        let u = user_with_student_id(users, sid);
        if log.last().card_id == u.card {
            earlier.push(UnlockLogView { name: u.name, ts: log.last().unlock_at })
        } else {
            earlier
        }
    }
}

/// The spec-level values of a sequence of fetched entries.
pub open spec fn entries_view(entries: Seq<UnlockLog>) -> Seq<UnlockLogView> {
    entries.map_values(|e: UnlockLog| e@)
}

/// The registry of users and the audit log of unlock events, the single
/// shared store behind both listeners.
pub struct UserManager {
    users: Vec<User>,
    log: Vec<LogRow>,
}

impl UserManager {
    /// The registered users, in insertion order.
    pub closed spec fn users_view(self) -> Seq<UserView> {
        self.users@.map_values(|u: User| u@)
    }

    /// The audit log rows, in insertion order.
    pub closed spec fn log_view(self) -> Seq<LogRowView> {
        self.log@.map_values(|r: LogRow| r@)
    }

    /// Well-formedness: the registry's unique-key invariant holds.
    pub open spec fn wf(self) -> bool {
        registry_wf(self.users_view())
    }

    /// A fresh, empty store.
    pub fn new() -> (r: UserManager)
        ensures
            r.users_view() == Seq::<UserView>::empty(),
            r.log_view() == Seq::<LogRowView>::empty(),
            r.wf(),
    {
        let r = UserManager { users: Vec::new(), log: Vec::new() };
        proof {
            assert(r.users_view() =~= Seq::<UserView>::empty());
            assert(r.log_view() =~= Seq::<LogRowView>::empty());
        }
        r
    }

    /// Query user basic information by card id; an absent card is an empty
    /// result, not an error.
    pub fn query_by_card(&self, card_id: i64) -> (r: Option<User>)
        ensures
            match r {
                Some(u) => self.users_view().contains(u@) && u@.card == card_id as int,
                None => !has_card(self.users_view(), card_id as int),
            },
    {
        let mut i: usize = 0;
        while i < self.users.len()
            invariant
                i <= self.users.len(),
                forall|k: int| 0 <= k < i ==> self.users_view()[k].card != card_id as int,
            decreases self.users.len() - i,
        {
            if self.users[i].card == card_id {
                let u = self.users[i].clone();
                proof {
                    assert(self.users_view()[i as int] == u@);
                    assert(self.users_view().contains(u@));
                }
                return Some(u);
            }
            i += 1;
        }
        None
    }

    /// Query user basic information by student id; an absent id is an empty
    /// result, not an error.
    pub fn query_by_student_id(&self, student_id: &str) -> (r: Option<User>)
        ensures
            match r {
                Some(u) => self.users_view().contains(u@) && u@.student_id == student_id@,
                None => !has_student_id(self.users_view(), student_id@),
            },
    {
        let sid: String = student_id.to_owned();
        let mut i: usize = 0;
        while i < self.users.len()
            invariant
                sid@ == student_id@,
                i <= self.users.len(),
                forall|k: int| 0 <= k < i ==> self.users_view()[k].student_id != student_id@,
            decreases self.users.len() - i,
        {
            if self.users[i].student_id == sid {
                let u = self.users[i].clone();
                proof {
                    assert(self.users_view()[i as int] == u@);
                    assert(self.users_view().contains(u@));
                }
                return Some(u);
            }
            i += 1;
        }
        None
    }

    /// Append a new user. Fails with `DuplicateKey`, leaving the store
    /// unchanged, iff the student id or the card is already registered.
    pub fn add(&mut self, new_user: User) -> (r: Result<(), AuthError>)
        requires
            old(self).wf(),
        ensures
            final(self).wf(),
            match r {
                Ok(()) => {
                    &&& !has_student_id(old(self).users_view(), new_user@.student_id)
                    &&& !has_card(old(self).users_view(), new_user@.card)
                    &&& final(self).users_view() == old(self).users_view().push(new_user@)
                    &&& final(self).log_view() == old(self).log_view()
                },
                Err(e) => {
                    &&& e == AuthError::DuplicateKey
                    &&& has_student_id(old(self).users_view(), new_user@.student_id) || has_card(
                        old(self).users_view(),
                        new_user@.card,
                    )
                    &&& final(self).users_view() == old(self).users_view()
                    &&& final(self).log_view() == old(self).log_view()
                },
            },
    {
        if self.query_by_student_id(new_user.student_id.as_str()).is_some() {
            return Err(AuthError::DuplicateKey);
        }
        if self.query_by_card(new_user.card).is_some() {
            return Err(AuthError::DuplicateKey);
        }
        proof {
            crate::laws::lemma_add_then_query(self.users_view(), new_user@);
        }
        let ghost before = self.users_view();
        self.users.push(new_user);
        proof {
            assert(self.users_view() =~= before.push(new_user@));
        }
        Ok(())
    }

    /// Remove an existed user; removing an unregistered student id succeeds
    /// as a no-op. The audit log is never touched: rows of a removed user
    /// stay in storage, orphaned from the per-user fetch path.
    pub fn remove(&mut self, student_id: &str)
        requires
            old(self).wf(),
        ensures
            final(self).wf(),
            final(self).users_view() == without_student(old(self).users_view(), student_id@),
            final(self).log_view() == old(self).log_view(),
    {
        let sid: String = student_id.to_owned();
        let mut kept: Vec<User> = Vec::new();
        let mut i: usize = 0;
        proof {
            assert(kept@.map_values(|u: User| u@) =~= without_student(
                self.users_view().take(0),
                student_id@,
            ));
        }
        while i < self.users.len()
            invariant
                sid@ == student_id@,
                i <= self.users.len(),
                kept@.map_values(|u: User| u@) == without_student(
                    self.users_view().take(i as int),
                    student_id@,
                ),
            decreases self.users.len() - i,
        {
            let ghost prefix = self.users_view().take(i as int);
            let ghost kept_before = kept@.map_values(|u: User| u@);
            if !(self.users[i].student_id == sid) {
                kept.push(self.users[i].clone());
            }
            proof {
                let longer = self.users_view().take(i + 1);
                assert(longer.drop_last() =~= prefix);
                assert(longer.last() == self.users_view()[i as int]);
                assert(kept@.map_values(|u: User| u@) =~= without_student(longer, student_id@));
            }
            i += 1;
        }
        proof {
            assert(self.users_view().take(self.users.len() as int) =~= self.users_view());
            crate::laws::lemma_without_student_properties(self.users_view(), student_id@);
        }
        self.users = kept;
    }

    /// Decide one scan event against the store: an unknown card is rejected
    /// and leaves the log untouched; a registered card is accepted and
    /// appends exactly one audit row for that card and timestamp.
    pub fn authorize(&mut self, card_id: i64, ts: i64) -> (d: AuthDecision)
        requires
            old(self).wf(),
        ensures
            final(self).wf(),
            final(self).users_view() == old(self).users_view(),
            has_card(old(self).users_view(), card_id as int) ==> d == AuthDecision::Accepted
                && final(self).log_view() == old(self).log_view().push(
                (LogRowView { card_id: card_id as int, unlock_at: ts as int }),
            ),
            !has_card(old(self).users_view(), card_id as int) ==> d
                == AuthDecision::RejectedUnknownCard && final(self).log_view() == old(
                self,
            ).log_view(),
    {
        match self.query_by_card(card_id) {
            Some(_found) => {
                let ghost log_before = self.log_view();
                self.log.push(LogRow { card_id, unlock_at: ts });
                proof {
                    assert(self.log_view() =~= log_before.push(
                        (LogRowView { card_id: card_id as int, unlock_at: ts as int }),
                    ));
                }
                AuthDecision::Accepted
            },
            None => AuthDecision::RejectedUnknownCard,
        }
    }
}

/// The fail-closed authorization policy over a storage-layer lookup: a found
/// user is accepted; an absent card is rejected as unknown; a storage fault
/// is rejected as an outage, never as "allow", and kept distinct from an
/// unknown card so that an operator can tell the two apart.
pub fn decision_for_lookup(lookup: &Result<Option<User>, AuthError>) -> (d: AuthDecision)
    ensures
        match *lookup {
            Ok(Some(_)) => d == AuthDecision::Accepted,
            Ok(None) => d == AuthDecision::RejectedUnknownCard,
            Err(_) => d == AuthDecision::RejectedStorage,
        },
{
    match lookup {
        Ok(found) => match found {
            Some(_) => AuthDecision::Accepted,
            None => AuthDecision::RejectedUnknownCard,
        },
        Err(_) => AuthDecision::RejectedStorage,
    }
}

} // verus!
