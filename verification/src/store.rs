//! The grant store: which flag each team confers on its members.
//!
//! [`GrantStore`] is the contract that the privilege functions rely on.
//! [`MemoryStore`] is a store that meets it, proved against it, and keeps
//! its grants in memory.

use vstd::prelude::*;

verus! {

/// The kinds of failure of a grant store.
#[derive(Clone, Copy, Debug, PartialEq, Eq, Structural)]
pub enum StoreErrorKind {
    /// The store could not be reached.
    Unavailable,
    /// The store was reached and a read failed.
    Read,
    /// The store was reached and a write failed.
    Write,
}

/// A failure of a grant store.
#[derive(Clone, Debug, PartialEq, Eq)]
pub struct StoreError {
    pub kind: StoreErrorKind,
    pub message: String,
}

/// The flag granted to `team`, if it has a grant.
pub open spec fn lookup(grants: Map<u64, u32>, team: u64) -> Option<u32> {
    if grants.dom().contains(team) {
        Some(grants[team])
    } else {
        None
    }
}

/// The teams that are granted exactly `flag`.
pub open spec fn holders(grants: Map<u64, u32>, flag: u32) -> Set<u64> {
    Set::new(|team: u64| grants.dom().contains(team) && grants[team] == flag)
}

/// A grant replaces the grant that the team had: after a flag is granted
/// to a team, looking the team up finds that flag, and after a second
/// grant, the second flag alone. The grants of other teams stay.
pub proof fn lemma_last_grant_wins(grants: Map<u64, u32>, team: u64, first: u32, second: u32)
    ensures
        lookup(grants.insert(team, first), team) == Some(first),
        lookup(grants.insert(team, first).insert(team, second), team) == Some(second),
        grants.insert(team, first).insert(team, second) == grants.insert(team, second),
        forall|other: u64|
            other != team ==> lookup(grants.insert(team, first), other) == lookup(grants, other),
{
    assert(grants.insert(team, first).insert(team, second) =~= grants.insert(team, second));
}

/// A team holds one flag at a time: once `flag` is granted to `team`, the
/// team is among the holders of `flag` and of no other flag, and the
/// holders of any flag are otherwise as they were.
pub proof fn lemma_one_flag_per_team(grants: Map<u64, u32>, team: u64, flag: u32)
    ensures
        holders(grants.insert(team, flag), flag).contains(team),
        forall|other: u32|
            other != flag ==> !(#[trigger] holders(grants.insert(team, flag), other)).contains(team),
        forall|other: u32, t: u64|
            t != team ==> (#[trigger] holders(grants.insert(team, flag), other).contains(t))
                == holders(grants, other).contains(t),
{
}

/// A persistent mapping from team to flag, with at most one flag per team.
///
/// The contract is stated over [`GrantStore::grants`], the mapping that the
/// store holds. Each operation either succeeds as stated or fails and
/// leaves the mapping as it was. A store that is
/// [`reliable`](GrantStore::reliable) never fails.
///
/// An implementation in verified code defines both functions and is proved
/// against the contract, as [`MemoryStore`] is. One written elsewhere
/// inherits the definitions below; nothing is then proved of it, and the
/// privilege functions behave as stated only as far as its operations
/// behave like those of some store that meets the contract.
pub trait GrantStore {
    /// The grants that the store holds.
    open spec fn grants(&self) -> Map<u64, u32> {
        Map::empty()
    }

    /// True when no operation of this store ever fails.
    open spec fn reliable(&self) -> bool {
        false
    }

    /// Grants `flag` to `team`, in place of any flag granted to it before.
    fn write(&mut self, team: u64, flag: u32) -> (r: Result<(), StoreError>)
        ensures
            r is Ok ==> final(self).grants() == old(self).grants().insert(team, flag),
            r is Err ==> final(self).grants() == old(self).grants(),
            final(self).reliable() == old(self).reliable(),
            old(self).reliable() ==> r is Ok,
    ;

    /// The flag granted to `team`, or `None` where it has no grant.
    fn find(&self, team: u64) -> (r: Result<Option<u32>, StoreError>)
        ensures
            r matches Ok(found) ==> found == lookup(self.grants(), team),
            self.reliable() ==> r is Ok,
    ;

    /// The teams that are granted exactly `flag`, each once.
    fn list_teams(&self, flag: u32) -> (r: Result<Vec<u64>, StoreError>)
        ensures
            r matches Ok(teams) ==> teams@.no_duplicates() && teams@.to_set() == holders(
                self.grants(),
                flag,
            ),
            self.reliable() ==> r is Ok,
    ;
}

/// One grant: the flag that a team confers.
#[derive(Clone, Copy, Debug, PartialEq, Eq, Structural)]
struct Grant {
    team: u64,
    flag: u32,
}

/// True when no team occurs twice among `entries`.
spec fn distinct_teams(entries: Seq<Grant>) -> bool {
    forall|i: int, j: int|
        0 <= i < j < entries.len() ==> (#[trigger] entries[i]).team != (#[trigger] entries[j]).team
}

/// True when `entries` holds a grant for `team`.
spec fn has_team(entries: Seq<Grant>, team: u64) -> bool {
    exists|i: int| 0 <= i < entries.len() && (#[trigger] entries[i]).team == team
}

/// The position of the grant for `team` among `entries`.
spec fn position(entries: Seq<Grant>, team: u64) -> int {
    choose|i: int| 0 <= i < entries.len() && (#[trigger] entries[i]).team == team
}

/// The mapping that a list of grants stands for.
spec fn table(entries: Seq<Grant>) -> Map<u64, u32> {
    Map::new(|team: u64| has_team(entries, team), |team: u64| entries[position(entries, team)].flag)
}

/// In a list without repeated teams, each entry is the grant of its team.
proof fn lemma_table_entry(entries: Seq<Grant>, i: int)
    requires
        distinct_teams(entries),
        0 <= i < entries.len(),
    ensures
        has_team(entries, entries[i].team),
        position(entries, entries[i].team) == i,
        lookup(table(entries), entries[i].team) == Some(entries[i].flag),
{
    let team = entries[i].team;
    let p = position(entries, team);
    assert(0 <= p < entries.len() && entries[p].team == team);
    if p < i {
        assert(entries[p].team != entries[i].team);
    } else if i < p {
        assert(entries[i].team != entries[p].team);
    }
}

/// Replacing the flag of an entry replaces the flag of its team in the
/// mapping, and nothing else.
proof fn lemma_table_update(entries: Seq<Grant>, i: int, flag: u32)
    requires
        distinct_teams(entries),
        0 <= i < entries.len(),
    ensures
        distinct_teams(entries.update(i, Grant { team: entries[i].team, flag })),
        table(entries.update(i, Grant { team: entries[i].team, flag })) == table(entries).insert(
            entries[i].team,
            flag,
        ),
{
    let team = entries[i].team;
    let after = entries.update(i, Grant { team, flag });
    assert(distinct_teams(after)) by {
        assert forall|a: int, b: int| 0 <= a < b < after.len() implies (#[trigger] after[a]).team
            != (#[trigger] after[b]).team by {
            assert(after[a].team == entries[a].team);
            assert(after[b].team == entries[b].team);
        }
    }
    assert forall|t: u64| has_team(after, t) == has_team(entries, t) by {
        if has_team(entries, t) {
            let p = position(entries, t);
            assert(after[p].team == t);
        }
        if has_team(after, t) {
            let p = position(after, t);
            assert(entries[p].team == t);
        }
    }
    assert forall|t: u64| has_team(after, t) implies #[trigger] table(after)[t] == table(
        entries,
    ).insert(team, flag)[t] by {
        let p = position(after, t);
        lemma_table_entry(after, p);
        assert(entries[p].team == t);
        lemma_table_entry(entries, p);
    }
    assert(table(after) =~= table(entries).insert(team, flag));
}

/// Appending a grant for a team without one adds that grant to the mapping,
/// and nothing else.
proof fn lemma_table_push(entries: Seq<Grant>, grant: Grant)
    requires
        distinct_teams(entries),
        !has_team(entries, grant.team),
    ensures
        distinct_teams(entries.push(grant)),
        table(entries.push(grant)) == table(entries).insert(grant.team, grant.flag),
{
    let after = entries.push(grant);
    assert(distinct_teams(after)) by {
        assert forall|a: int, b: int| 0 <= a < b < after.len() implies (#[trigger] after[a]).team
            != (#[trigger] after[b]).team by {
            if b < entries.len() {
                assert(after[a] == entries[a] && after[b] == entries[b]);
            } else {
                assert(after[a] == entries[a]);
            }
        }
    }
    assert forall|t: u64| has_team(after, t) == (has_team(entries, t) || t == grant.team) by {
        if has_team(entries, t) {
            let p = position(entries, t);
            assert(after[p].team == t);
        }
        if t == grant.team {
            assert(after[entries.len() as int].team == t);
        }
        if has_team(after, t) {
            let p = position(after, t);
            if p < entries.len() {
                assert(entries[p].team == t);
            }
        }
    }
    assert forall|t: u64| has_team(after, t) implies #[trigger] table(after)[t] == table(
        entries,
    ).insert(grant.team, grant.flag)[t] by {
        let p = position(after, t);
        lemma_table_entry(after, p);
        if p < entries.len() {
            assert(entries[p] == after[p]);
            lemma_table_entry(entries, p);
        }
    }
    assert(table(after) =~= table(entries).insert(grant.team, grant.flag));
}

/// A grant store that lives in memory.
///
/// It keeps one entry per team and never fails. Teams are listed by a scan
/// of every entry.
#[derive(Debug)]
pub struct MemoryStore {
    entries: Vec<Grant>,
}

impl MemoryStore {
    #[verifier::type_invariant]
    closed spec fn well_formed(self) -> bool {
        distinct_teams(self.entries@)
    }

    /// A store without grants.
    pub fn new() -> (r: MemoryStore)
        ensures
            r.grants() == Map::<u64, u32>::empty(),
            r.reliable(),
    {
        let r = MemoryStore { entries: Vec::new() };
        assert(r.grants() =~= Map::<u64, u32>::empty());
        r
    }

    /// The number of teams that hold a grant.
    pub fn len(&self) -> (r: usize)
        ensures
            self.grants().dom().finite(),
            r == self.grants().dom().len(),
    {
        proof {
            use_type_invariant(self);
            lemma_table_size(self.entries@);
        }
        self.entries.len()
    }

    /// The position of the entry for `team`, if it has one.
    fn index_of(&self, team: u64) -> (r: Option<usize>)
        ensures
            match r {
                Some(i) => i < self.entries@.len() && self.entries@[i as int].team == team,
                None => !has_team(self.entries@, team),
            },
    {
        let mut i: usize = 0;
        while i < self.entries.len()
            invariant
                i <= self.entries.len(),
                forall|k: int| 0 <= k < i ==> (#[trigger] self.entries@[k]).team != team,
            decreases self.entries.len() - i,
        {
            if self.entries[i].team == team {
                return Some(i);
            }
            i += 1;
        }
        None
    }
}

/// A list without repeated teams stands for a mapping of as many teams.
proof fn lemma_table_size(entries: Seq<Grant>)
    requires
        distinct_teams(entries),
    ensures
        table(entries).dom().finite(),
        table(entries).dom().len() == entries.len(),
    decreases entries.len(),
{
    if entries.len() == 0 {
        assert(table(entries).dom() =~= Set::<u64>::empty());
    } else {
        let front = entries.drop_last();
        let last = entries.last();
        assert(distinct_teams(front)) by {
            assert forall|a: int, b: int| 0 <= a < b < front.len() implies (#[trigger] front[a]).team
                != (#[trigger] front[b]).team by {
                assert(front[a] == entries[a] && front[b] == entries[b]);
            }
        }
        assert(!has_team(front, last.team)) by {
            if has_team(front, last.team) {
                let p = position(front, last.team);
                assert(entries[p].team == entries[entries.len() - 1].team);
            }
        }
        assert(front.push(last) =~= entries);
        lemma_table_push(front, last);
        lemma_table_size(front);
    }
}

impl GrantStore for MemoryStore {
    closed spec fn grants(&self) -> Map<u64, u32> {
        table(self.entries@)
    }

    open spec fn reliable(&self) -> bool {
        true
    }

    fn write(&mut self, team: u64, flag: u32) -> (r: Result<(), StoreError>)
        ensures
            r is Ok,
    {
        proof {
            use_type_invariant(&*self);
        }
        let found = self.index_of(team);
        let mut entries: Vec<Grant> = Vec::new();
        std::mem::swap(&mut self.entries, &mut entries);
        match found {
            Some(i) => {
                proof {
                    lemma_table_update(entries@, i as int, flag);
                }
                entries.set(i, Grant { team, flag });
            },
            None => {
                proof {
                    lemma_table_push(entries@, Grant { team, flag });
                }
                entries.push(Grant { team, flag });
            },
        }
        self.entries = entries;
        Ok(())
    }

    fn find(&self, team: u64) -> (r: Result<Option<u32>, StoreError>)
        ensures
            r is Ok,
    {
        proof {
            use_type_invariant(self);
        }
        match self.index_of(team) {
            Some(i) => {
                proof {
                    lemma_table_entry(self.entries@, i as int);
                }
                Ok(Some(self.entries[i].flag))
            },
            None => Ok(None),
        }
    }

    fn list_teams(&self, flag: u32) -> (r: Result<Vec<u64>, StoreError>)
        ensures
            r is Ok,
    {
        proof {
            use_type_invariant(self);
        }
        let mut teams: Vec<u64> = Vec::new();
        let mut i: usize = 0;
        while i < self.entries.len()
            invariant
                i <= self.entries.len(),
                distinct_teams(self.entries@),
                teams@.no_duplicates(),
                forall|t: u64|
                    teams@.contains(t) <==> exists|k: int|
                        0 <= k < i && (#[trigger] self.entries@[k]).team == t
                            && self.entries@[k].flag == flag,
            decreases self.entries.len() - i,
        {
            let entry = self.entries[i];
            if entry.flag == flag {
                proof {
                    if teams@.contains(entry.team) {
                        let k = choose|k: int|
                            0 <= k < i && (#[trigger] self.entries@[k]).team == entry.team
                                && self.entries@[k].flag == flag;
                        assert(self.entries@[k].team != self.entries@[i as int].team);
                    }
                }
                let ghost before = teams@;
                teams.push(entry.team);
                proof {
                    assert forall|t: u64|
                        teams@.contains(t) <==> exists|k: int|
                            0 <= k < i + 1 && (#[trigger] self.entries@[k]).team == t
                                && self.entries@[k].flag == flag by {
                        if teams@.contains(t) {
                            let p = choose|p: int| 0 <= p < teams@.len() && teams@[p] == t;
                            if p < before.len() {
                                assert(before[p] == t);
                                assert(before.contains(t));
                            } else {
                                assert(self.entries@[i as int].team == t);
                            }
                        }
                        if exists|k: int|
                            0 <= k < i + 1 && (#[trigger] self.entries@[k]).team == t
                                && self.entries@[k].flag == flag {
                            let k = choose|k: int|
                                0 <= k < i + 1 && (#[trigger] self.entries@[k]).team == t
                                    && self.entries@[k].flag == flag;
                            if k < i {
                                assert(before.contains(t));
                                let p = choose|p: int| 0 <= p < before.len() && before[p] == t;
                                assert(teams@[p] == t);
                            } else {
                                assert(teams@[before.len() as int] == t);
                            }
                        }
                    }
                }
            }
            i += 1;
        }
        proof {
            assert forall|t: u64| teams@.to_set().contains(t) == holders(
                self.grants(),
                flag,
            ).contains(t) by {
                if teams@.contains(t) {
                    let k = choose|k: int|
                        0 <= k < i && (#[trigger] self.entries@[k]).team == t
                            && self.entries@[k].flag == flag;
                    lemma_table_entry(self.entries@, k);
                }
                if has_team(self.entries@, t) {
                    let p = position(self.entries@, t);
                    lemma_table_entry(self.entries@, p);
                }
            }
            assert(teams@.to_set() =~= holders(self.grants(), flag));
        }
        Ok(teams)
    }
}

} // verus!
