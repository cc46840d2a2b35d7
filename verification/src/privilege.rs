//! Privileges: granting flags to teams, and resolving the flags of a
//! session from the teams its user belongs to.
//!
//! A session is entitled to the union of the flags granted to its user's
//! teams. A team without a grant contributes nothing. Resolution is all or
//! nothing: the session's flags are replaced by the full aggregate, or the
//! session is left as it was.

use vstd::prelude::*;
use crate::flags::{
    features_of, known, lemma_features_of_union, lemma_known_zero, Feature, FeatureFlags,
};
use crate::store::{holders, lookup, GrantStore, StoreError};

verus! {

/// A team, as the identity provider reports it.
#[derive(Clone, Debug, PartialEq, Eq)]
pub struct Team {
    pub id: u64,
    pub name: String,
}

/// The session of a signed-in user.
#[derive(Clone, Debug, PartialEq, Eq)]
pub struct Session {
    pub id: u64,
    pub email: String,
    pub name: String,
    /// The access token that the identity provider issued.
    pub token: String,
    /// The feature flags that the session is entitled to.
    pub flags: u32,
}

impl Session {
    /// The access token of the session.
    pub fn get_token(&self) -> (r: &str)
        ensures
            r@ == self.token@,
    {
        self.token.as_str()
    }

    /// The feature flags of the session.
    pub fn get_flags(&self) -> (r: u32)
        ensures
            r == self.flags,
    {
        self.flags
    }

    /// Replaces the feature flags of the session.
    pub fn set_flags(&mut self, flags: u32)
        ensures
            *final(self) == with_flags(*old(self), flags),
    {
        self.flags = flags;
    }
}

/// The session `session` with its flags replaced by `flags`.
pub open spec fn with_flags(session: Session, flags: u32) -> Session {
    Session { flags, ..session }
}

/// The kinds of failure of the identity provider.
#[derive(Clone, Copy, Debug, PartialEq, Eq, Structural)]
pub enum ProviderErrorKind {
    /// The provider could not be reached.
    Unreachable,
    /// The provider refused the access token.
    Rejected,
}

/// A failure of the identity provider.
#[derive(Clone, Debug, PartialEq, Eq)]
pub struct ProviderError {
    pub kind: ProviderErrorKind,
    pub message: String,
}

/// Why a privilege operation failed.
#[derive(Clone, Debug, PartialEq, Eq)]
pub enum Error {
    /// The grant store failed.
    Store(StoreError),
    /// The identity provider failed.
    Provider(ProviderError),
    /// The grant of `team` holds `bits`, of which one names no feature.
    UnknownFlags { team: u64, bits: u32 },
}

/// The identifiers of `teams`, in their order.
pub open spec fn team_ids(teams: Seq<Team>) -> Seq<u64> {
    Seq::new(teams.len(), |i: int| teams[i].id)
}

/// The identifiers of the teams that the identity provider reported; none
/// where it failed.
pub open spec fn reported_ids(teams: Result<Vec<Team>, ProviderError>) -> Seq<u64> {
    match teams {
        Ok(list) => team_ids(list@),
        Err(_) => Seq::empty(),
    }
}

/// The bits that `team` confers: those of its grant, none without a grant.
pub open spec fn grant_bits(grants: Map<u64, u32>, team: u64) -> u32 {
    match lookup(grants, team) {
        Some(bits) => bits,
        None => 0,
    }
}

/// The union of the bits that `teams` confer.
pub open spec fn union_bits(grants: Map<u64, u32>, teams: Seq<u64>) -> u32
    decreases teams.len(),
{
    if teams.len() == 0 {
        0
    } else {
        union_bits(grants, teams.drop_last()) | grant_bits(grants, teams.last())
    }
}

/// True when the grant of each of `teams` holds known bits only.
pub open spec fn decodable(grants: Map<u64, u32>, teams: Seq<u64>) -> bool {
    forall|i: int| 0 <= i < teams.len() ==> known(grant_bits(grants, #[trigger] teams[i]))
}

/// True when `teams[i]` is the first team whose grant holds an unknown bit.
pub open spec fn first_unknown(grants: Map<u64, u32>, teams: Seq<u64>, i: int) -> bool {
    &&& 0 <= i < teams.len()
    &&& !known(grant_bits(grants, teams[i]))
    &&& decodable(grants, teams.take(i))
}

/// The grants after `flag` was granted to each of `teams`: those teams hold
/// `flag`, every other team holds what it held.
pub open spec fn granted_to(grants: Map<u64, u32>, flag: u32, teams: Seq<u64>) -> Map<u64, u32> {
    Map::new(
        |team: u64| grants.dom().contains(team) || teams.contains(team),
        |team: u64|
            if teams.contains(team) {
                flag
            } else {
                grants[team]
            },
    )
}

/// Grants `flag` to `team`, in place of whatever the team was granted
/// before. Any flag value is accepted.
pub fn associate_team<S: GrantStore>(ds: &mut S, flag: u32, team: u64) -> (r: Result<(), Error>)
    ensures
        r is Ok ==> final(ds).grants() == old(ds).grants().insert(team, flag),
        r is Err ==> final(ds).grants() == old(ds).grants(),
        r matches Err(e) ==> e is Store,
        old(ds).reliable() ==> r is Ok,
        final(ds).reliable() == old(ds).reliable(),
{
    match ds.write(team, flag) {
        Ok(()) => Ok(()),
        Err(e) => Err(Error::Store(e)),
    }
}

/// Lists the teams that are granted exactly `flag`, each once.
pub fn list_grants<S: GrantStore>(ds: &S, flag: u32) -> (r: Result<Vec<u64>, Error>)
    ensures
        r matches Ok(teams) ==> teams@.no_duplicates() && teams@.to_set() == holders(
            ds.grants(),
            flag,
        ),
        r matches Err(e) ==> e is Store,
        ds.reliable() ==> r is Ok,
{
    match ds.list_teams(flag) {
        Ok(teams) => Ok(teams),
        Err(e) => Err(Error::Store(e)),
    }
}

/// Grants `flag` to every team of `team_ids`, one after the other.
///
/// Nothing is revoked: a team that is not listed keeps its grant. The first
/// failure of the store ends the batch with that error; the grants made
/// before it stay.
pub fn update_grants_for_flag<S: GrantStore>(ds: &mut S, flag: u32, team_ids: &Vec<u64>) -> (r:
    Result<(), Error>)
    ensures
        r is Ok ==> final(ds).grants() == granted_to(old(ds).grants(), flag, team_ids@),
        r is Err ==> exists|done: int|
            0 <= done < team_ids@.len() && final(ds).grants() == granted_to(
                old(ds).grants(),
                flag,
                #[trigger] team_ids@.take(done),
            ),
        r matches Err(e) ==> e is Store,
        old(ds).reliable() ==> r is Ok,
        final(ds).reliable() == old(ds).reliable(),
{
    let mut i: usize = 0;
    proof {
        lemma_granted_to_none(ds.grants(), flag);
        assert(team_ids@.take(0) =~= Seq::<u64>::empty());
    }
    while i < team_ids.len()
        invariant
            i <= team_ids.len(),
            ds.grants() == granted_to(old(ds).grants(), flag, team_ids@.take(i as int)),
            ds.reliable() == old(ds).reliable(),
        decreases team_ids.len() - i,
    {
        match associate_team(ds, flag, team_ids[i]) {
            Ok(()) => {},
            Err(e) => {
                return Err(e);
            },
        }
        proof {
            lemma_granted_to_next(old(ds).grants(), flag, team_ids@, i as int);
        }
        i += 1;
    }
    assert(team_ids@.take(i as int) =~= team_ids@);
    Ok(())
}

/// Granting a flag to no team changes nothing.
pub proof fn lemma_granted_to_none(grants: Map<u64, u32>, flag: u32)
    ensures
        granted_to(grants, flag, Seq::<u64>::empty()) == grants,
{
    assert(granted_to(grants, flag, Seq::<u64>::empty()) =~= grants);
}

/// Granting a flag to the first `i + 1` teams is granting it to the first
/// `i`, and then to the next.
pub proof fn lemma_granted_to_next(grants: Map<u64, u32>, flag: u32, teams: Seq<u64>, i: int)
    requires
        0 <= i < teams.len(),
    ensures
        granted_to(grants, flag, teams.take(i + 1)) == granted_to(
            grants,
            flag,
            teams.take(i),
        ).insert(teams[i], flag),
{
    let shorter = teams.take(i);
    let longer = teams.take(i + 1);
    assert forall|t: u64| longer.contains(t) == (shorter.contains(t) || t == teams[i]) by {
        if shorter.contains(t) {
            let k = choose|k: int| 0 <= k < shorter.len() && shorter[k] == t;
            assert(longer[k] == t);
        }
        if t == teams[i] {
            assert(longer[i] == t);
        }
        if longer.contains(t) {
            let k = choose|k: int| 0 <= k < longer.len() && longer[k] == t;
            if k < i {
                assert(shorter[k] == t);
            }
        }
    }
    assert(granted_to(grants, flag, longer) =~= granted_to(grants, flag, shorter).insert(
        teams[i],
        flag,
    ));
}

/// A batch can be replayed: granting the flag to all of `teams` after a
/// batch that stopped before `teams[done]` ends where a batch without
/// failure ends, and so does granting it a second time.
pub proof fn lemma_replay_completes(grants: Map<u64, u32>, flag: u32, teams: Seq<u64>, done: int)
    requires
        0 <= done <= teams.len(),
    ensures
        granted_to(granted_to(grants, flag, teams.take(done)), flag, teams) == granted_to(
            grants,
            flag,
            teams,
        ),
        granted_to(granted_to(grants, flag, teams), flag, teams) == granted_to(
            grants,
            flag,
            teams,
        ),
{
    let part = teams.take(done);
    assert forall|t: u64| part.contains(t) implies teams.contains(t) by {
        let k = choose|k: int| 0 <= k < part.len() && part[k] == t;
        assert(teams[k] == t);
    }
    assert(granted_to(granted_to(grants, flag, part), flag, teams) =~= granted_to(
        grants,
        flag,
        teams,
    ));
    assert(granted_to(granted_to(grants, flag, teams), flag, teams) =~= granted_to(
        grants,
        flag,
        teams,
    ));
}

/// The teams of two lists taken together confer the union of what each
/// list confers.
pub proof fn lemma_union_concat(grants: Map<u64, u32>, a: Seq<u64>, b: Seq<u64>)
    ensures
        union_bits(grants, a + b) == union_bits(grants, a) | union_bits(grants, b),
    decreases b.len(),
{
    let x = union_bits(grants, a);
    if b.len() == 0 {
        assert(a + b =~= a);
        assert(x | 0 == x) by (bit_vector);
    } else {
        let y = union_bits(grants, b.drop_last());
        let z = grant_bits(grants, b.last());
        assert((a + b).drop_last() =~= a + b.drop_last());
        assert((a + b).last() == b.last());
        lemma_union_concat(grants, a, b.drop_last());
        assert((x | y) | z == x | (y | z)) by (bit_vector);
    }
}

/// A bit of `mask` is among the bits that `teams` confer exactly when the
/// grant of one of the teams holds a bit of `mask`.
pub proof fn lemma_union_mask(grants: Map<u64, u32>, teams: Seq<u64>, mask: u32)
    ensures
        (union_bits(grants, teams) & mask != 0) <==> exists|i: int|
            0 <= i < teams.len() && grant_bits(grants, #[trigger] teams[i]) & mask != 0,
    decreases teams.len(),
{
    if teams.len() == 0 {
        assert(0u32 & mask == 0) by (bit_vector);
    } else {
        let front = teams.drop_last();
        let x = union_bits(grants, front);
        let y = grant_bits(grants, teams.last());
        lemma_union_mask(grants, front, mask);
        assert(((x | y) & mask != 0) == (x & mask != 0 || y & mask != 0)) by (bit_vector);
        if x & mask != 0 {
            let i = choose|i: int|
                0 <= i < front.len() && grant_bits(grants, #[trigger] front[i]) & mask != 0;
            assert(teams[i] == front[i]);
        }
        if y & mask != 0 {
            assert(grant_bits(grants, teams[teams.len() - 1]) & mask != 0);
        }
        if exists|i: int|
            0 <= i < teams.len() && grant_bits(grants, #[trigger] teams[i]) & mask != 0 {
            let i = choose|i: int|
                0 <= i < teams.len() && grant_bits(grants, #[trigger] teams[i]) & mask != 0;
            if i < front.len() {
                assert(front[i] == teams[i]);
            }
        }
    }
}

/// Grants that hold known bits only confer known bits only.
pub proof fn lemma_union_known(grants: Map<u64, u32>, teams: Seq<u64>)
    requires
        decodable(grants, teams),
    ensures
        known(union_bits(grants, teams)),
    decreases teams.len(),
{
    if teams.len() == 0 {
        lemma_known_zero();
    } else {
        let front = teams.drop_last();
        assert forall|i: int| 0 <= i < front.len() implies known(
            grant_bits(grants, #[trigger] front[i]),
        ) by {
            assert(front[i] == teams[i]);
        }
        lemma_union_known(grants, front);
        assert(known(grant_bits(grants, teams[teams.len() - 1])));
        lemma_features_of_union(union_bits(grants, front), grant_bits(grants, teams.last()));
    }
}

/// A session holds a feature after resolution exactly when one of its
/// teams is granted that feature.
pub proof fn lemma_resolved_features(grants: Map<u64, u32>, teams: Seq<u64>)
    ensures
        features_of(union_bits(grants, teams)) == Set::new(
            |f: Feature|
                exists|i: int|
                    0 <= i < teams.len() && features_of(
                        grant_bits(grants, #[trigger] teams[i]),
                    ).contains(f),
        ),
{
    let conferred = Set::new(
        |f: Feature|
            exists|i: int|
                0 <= i < teams.len() && features_of(
                    grant_bits(grants, #[trigger] teams[i]),
                ).contains(f),
    );
    assert forall|f: Feature| features_of(union_bits(grants, teams)).contains(f)
        == conferred.contains(f) by {
        lemma_union_mask(grants, teams, f.spec_bit());
        if conferred.contains(f) {
            let i = choose|i: int|
                0 <= i < teams.len() && features_of(
                    grant_bits(grants, #[trigger] teams[i]),
                ).contains(f);
            assert(grant_bits(grants, teams[i]) & f.spec_bit() != 0);
        }
        if features_of(union_bits(grants, teams)).contains(f) {
            let i = choose|i: int|
                0 <= i < teams.len() && grant_bits(grants, #[trigger] teams[i]) & f.spec_bit()
                    != 0;
            assert(features_of(grant_bits(grants, teams[i])).contains(f));
        }
    }
    assert(features_of(union_bits(grants, teams)) =~= conferred);
}

/// A team without a grant contributes no bit: listing it, at whatever
/// place, changes neither the flags that resolution yields nor whether it
/// succeeds.
pub proof fn lemma_ungranted_team_adds_nothing(
    grants: Map<u64, u32>,
    teams: Seq<u64>,
    at: int,
    team: u64,
)
    requires
        0 <= at <= teams.len(),
        !grants.dom().contains(team),
    ensures
        grant_bits(grants, team) == 0,
        union_bits(grants, teams.insert(at, team)) == union_bits(grants, teams),
        decodable(grants, teams.insert(at, team)) == decodable(grants, teams),
{
    let longer = teams.insert(at, team);
    let front = teams.take(at);
    let back = teams.skip(at);
    let one = seq![team];
    assert(longer =~= (front + one) + back);
    assert(teams =~= front + back);
    assert(one.drop_last() =~= Seq::<u64>::empty());
    assert(union_bits(grants, one.drop_last()) == 0);
    assert(union_bits(grants, one) == 0) by {
        assert(0u32 | 0u32 == 0u32) by (bit_vector);
    }
    lemma_union_concat(grants, front, one);
    lemma_union_concat(grants, front + one, back);
    lemma_union_concat(grants, front, back);
    let x = union_bits(grants, front);
    let y = union_bits(grants, back);
    assert((x | 0) | y == x | y) by (bit_vector);
    lemma_known_zero();
    if decodable(grants, teams) {
        assert forall|i: int| 0 <= i < longer.len() implies known(
            grant_bits(grants, #[trigger] longer[i]),
        ) by {
            if i < at {
                assert(longer[i] == teams[i]);
            } else if i > at {
                assert(longer[i] == teams[i - 1]);
            }
        }
    }
    if decodable(grants, longer) {
        assert forall|i: int| 0 <= i < teams.len() implies known(
            grant_bits(grants, #[trigger] teams[i]),
        ) by {
            if i < at {
                assert(longer[i] == teams[i]);
            } else {
                assert(longer[i + 1] == teams[i]);
            }
        }
    }
}

/// A user whose only team is granted `flag` resolves to exactly `flag`, and
/// resolution succeeds where `flag` holds known bits only.
pub proof fn lemma_single_team(grants: Map<u64, u32>, team: u64, flag: u32)
    requires
        grants.dom().contains(team),
        grants[team] == flag,
    ensures
        union_bits(grants, seq![team]) == flag,
        decodable(grants, seq![team]) == known(flag),
{
    let one = seq![team];
    assert(one.drop_last() =~= Seq::<u64>::empty());
    assert(union_bits(grants, one.drop_last()) == 0);
    assert(one.last() == team);
    assert(0u32 | flag == flag) by (bit_vector);
    assert(one[0] == team);
}

/// The flags depend on which teams are listed, not on their order nor on
/// how often a team is listed; and so does whether resolution succeeds.
pub proof fn lemma_same_teams(grants: Map<u64, u32>, a: Seq<u64>, b: Seq<u64>)
    requires
        forall|team: u64| a.contains(team) <==> b.contains(team),
    ensures
        union_bits(grants, a) == union_bits(grants, b),
        decodable(grants, a) == decodable(grants, b),
{
    let u = union_bits(grants, a);
    let v = union_bits(grants, b);
    lemma_mask_carries_over(grants, a, b, u & !v);
    lemma_mask_carries_over(grants, b, a, v & !u);
    assert(u == v) by (bit_vector)
        requires
            (u & (u & !v) != 0) ==> (v & (u & !v) != 0),
            (v & (v & !u) != 0) ==> (u & (v & !u) != 0),
    ;
    lemma_decodable_carries_over(grants, a, b);
    lemma_decodable_carries_over(grants, b, a);
}

/// Where every team of `a` is also in `b`, the teams of `b` confer every
/// bit that those of `a` confer.
proof fn lemma_mask_carries_over(grants: Map<u64, u32>, a: Seq<u64>, b: Seq<u64>, mask: u32)
    requires
        forall|team: u64| a.contains(team) ==> b.contains(team),
    ensures
        union_bits(grants, a) & mask != 0 ==> union_bits(grants, b) & mask != 0,
{
    lemma_union_mask(grants, a, mask);
    lemma_union_mask(grants, b, mask);
    if union_bits(grants, a) & mask != 0 {
        let i = choose|i: int|
            0 <= i < a.len() && grant_bits(grants, #[trigger] a[i]) & mask != 0;
        assert(a.contains(a[i]));
        let j = choose|j: int| 0 <= j < b.len() && b[j] == a[i];
        assert(grant_bits(grants, b[j]) & mask != 0);
    }
}

/// Where every team of `a` is also in `b` and the grants of `b` can be
/// decoded, so can those of `a`.
proof fn lemma_decodable_carries_over(grants: Map<u64, u32>, a: Seq<u64>, b: Seq<u64>)
    requires
        forall|team: u64| a.contains(team) ==> b.contains(team),
    ensures
        decodable(grants, b) ==> decodable(grants, a),
{
    if decodable(grants, b) {
        assert forall|i: int| 0 <= i < a.len() implies known(
            grant_bits(grants, #[trigger] a[i]),
        ) by {
            assert(a.contains(a[i]));
            let j = choose|j: int| 0 <= j < b.len() && b[j] == a[i];
            assert(known(grant_bits(grants, b[j])));
        }
    }
}

/// Two teams resolve alike in either order, and a team listed twice
/// resolves as if listed once.
pub proof fn lemma_union_commutes(grants: Map<u64, u32>, a: u64, b: u64)
    ensures
        union_bits(grants, seq![a, b]) == union_bits(grants, seq![b, a]),
        decodable(grants, seq![a, b]) == decodable(grants, seq![b, a]),
        union_bits(grants, seq![a, a]) == union_bits(grants, seq![a]),
{
    let ab = seq![a, b];
    let ba = seq![b, a];
    assert forall|team: u64| ab.contains(team) <==> ba.contains(team) by {
        assert(ab[0] == a && ab[1] == b && ba[0] == b && ba[1] == a);
    }
    lemma_same_teams(grants, ab, ba);
    let aa = seq![a, a];
    let one = seq![a];
    assert forall|team: u64| aa.contains(team) <==> one.contains(team) by {
        assert(aa[0] == a && aa[1] == a && one[0] == a);
    }
    lemma_same_teams(grants, aa, one);
}

/// Resolution is a function of the grants and the teams: where it succeeds
/// twice on the same grants and teams, the second run leaves the session
/// as the first left it, whatever flags the session held before.
pub proof fn lemma_resolution_repeats(
    grants: Map<u64, u32>,
    teams: Seq<u64>,
    before: Session,
    once: Session,
    twice: Session,
)
    requires
        once == with_flags(before, union_bits(grants, teams)),
        twice == with_flags(once, union_bits(grants, teams)),
    ensures
        twice == once,
        once.flags == union_bits(grants, teams),
        once == with_flags(Session { flags: 0, ..before }, union_bits(grants, teams)),
{
}

/// What one answer of the store adds to the flags gathered so far.
///
/// A team without a grant adds nothing. A grant adds its bits; one that
/// holds a bit that names no feature is refused. A failure of the store is
/// passed on.
pub fn absorb(acc: FeatureFlags, team: u64, reply: Result<Option<u32>, StoreError>) -> (r: Result<
    FeatureFlags,
    Error,
>)
    ensures
        match reply {
            Ok(None) => r == Ok::<FeatureFlags, Error>(acc),
            Ok(Some(bits)) => if known(bits) {
                r matches Ok(flags) && flags.spec_bits() == acc.spec_bits() | bits
            } else {
                r == Err::<FeatureFlags, Error>(Error::UnknownFlags { team, bits })
            },
            Err(e) => r == Err::<FeatureFlags, Error>(Error::Store(e)),
        },
{
    match reply {
        Ok(None) => Ok(acc),
        Ok(Some(bits)) => match FeatureFlags::from_bits(bits) {
            Some(flags) => Ok(acc.union(flags)),
            None => Err(Error::UnknownFlags { team, bits }),
        },
        Err(e) => Err(Error::Store(e)),
    }
}

/// Resolves the flags of `session` from the teams of its user.
///
/// `teams` is what the identity provider answered for the session's token.
/// Each team's grant is looked up in `ds`, and the union of the grants
/// becomes the session's flags, in one assignment after the last lookup.
///
/// On any failure the session is left as it was: where the provider
/// failed, where the store fails on a lookup, and where a grant holds a bit
/// that names no feature (the first such team is reported).
pub fn set_features<S: GrantStore>(
    ds: &S,
    teams: Result<Vec<Team>, ProviderError>,
    session: &mut Session,
) -> (r: Result<(), Error>)
    ensures
        r is Ok ==> teams is Ok && decodable(ds.grants(), reported_ids(teams)) && *final(session)
            == with_flags(*old(session), union_bits(ds.grants(), reported_ids(teams))),
        r is Ok ==> known(final(session).flags),
        r is Err ==> *final(session) == *old(session),
        teams matches Err(e) ==> r == Err::<(), Error>(Error::Provider(e)),
        r matches Err(Error::Provider(_)) ==> teams is Err,
        r matches Err(Error::Store(_)) ==> teams is Ok && !ds.reliable(),
        r matches Err(Error::UnknownFlags { team, bits }) ==> teams is Ok && exists|i: int|
            first_unknown(ds.grants(), reported_ids(teams), i) && #[trigger] reported_ids(teams)[i]
                == team && grant_bits(ds.grants(), team) == bits,
        ds.reliable() && teams is Ok && decodable(ds.grants(), reported_ids(teams)) ==> r is Ok,
{
    let list = match teams {
        Ok(list) => list,
        Err(e) => {
            return Err(Error::Provider(e));
        },
    };
    let ghost ids = team_ids(list@);
    let mut flags = FeatureFlags::empty();
    let mut i: usize = 0;
    proof {
        assert(ids.take(0) =~= Seq::<u64>::empty());
    }
    while i < list.len()
        invariant
            i <= list.len(),
            ids == team_ids(list@),
            teams == Ok::<Vec<Team>, ProviderError>(list),
            *session == *old(session),
            flags.spec_bits() == union_bits(ds.grants(), ids.take(i as int)),
            decodable(ds.grants(), ids.take(i as int)),
        decreases list.len() - i,
    {
        let team = list[i].id;
        let reply = ds.find(team);
        proof {
            let longer = ids.take(i + 1);
            assert(longer.drop_last() =~= ids.take(i as int));
            assert(longer.last() == team);
            assert(ids[i as int] == team);
            assert(reported_ids(teams) == ids);
            let bits = flags.spec_bits();
            assert(bits | 0 == bits) by (bit_vector);
        }
        flags = match absorb(flags, team, reply) {
            Ok(flags) => flags,
            Err(e) => {
                proof {
                    if e is UnknownFlags {
                        assert(first_unknown(ds.grants(), ids, i as int));
                        assert(reported_ids(teams)[i as int] == team);
                    }
                    if ds.reliable() && decodable(ds.grants(), ids) {
                        assert(known(grant_bits(ds.grants(), ids[i as int])));
                    }
                }
                return Err(e);
            },
        };
        proof {
            let longer = ids.take(i + 1);
            assert forall|k: int| 0 <= k < longer.len() implies known(
                grant_bits(ds.grants(), #[trigger] longer[k]),
            ) by {
                if k < i {
                    assert(ids.take(i as int)[k] == longer[k]);
                } else {
                    lemma_known_zero();
                }
            }
        }
        i += 1;
    }
    proof {
        assert(ids.take(i as int) =~= ids);
    }
    session.set_flags(flags.bits());
    Ok(())
}

} // verus!
