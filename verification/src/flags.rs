//! Feature flags: named bits of a `u32`, and validated sets of them.

use vstd::prelude::*;

verus! {

/// Bit held by sessions that may administer the service.
pub const ADMIN: u32 = 0b01;

/// Bit held by sessions that may use the build service.
pub const BUILDER: u32 = 0b10;

/// Every bit that names a feature.
pub const KNOWN_BITS: u32 = 0b11;

/// The features that a session can be entitled to.
#[derive(Clone, Copy, Debug, PartialEq, Eq, Structural)]
pub enum Feature {
    Admin,
    Builder,
}

impl Feature {
    /// The bit that stands for this feature.
    pub open spec fn spec_bit(self) -> u32 {
        match self {
            Feature::Admin => ADMIN,
            Feature::Builder => BUILDER,
        }
    }

    /// The bit that stands for this feature.
    #[verifier::when_used_as_spec(spec_bit)]
    pub fn bit(self) -> (r: u32)
        ensures
            r == self.spec_bit(),
    {
        match self {
            Feature::Admin => ADMIN,
            Feature::Builder => BUILDER,
        }
    }

    /// The name under which the feature is listed.
    pub open spec fn spec_name(self) -> Seq<char> {
        match self {
            Feature::Admin => "ADMIN"@,
            Feature::Builder => "BUILDER"@,
        }
    }

    /// The name under which the feature is listed.
    pub fn name(self) -> (r: &'static str)
        ensures
            r@ == self.spec_name(),
    {
        match self {
            Feature::Admin => "ADMIN",
            Feature::Builder => "BUILDER",
        }
    }
}

/// Every feature has a bit of its own: the bits are not zero, no two
/// features share one, and together they are the known bits.
pub proof fn lemma_feature_bits(f: Feature, g: Feature)
    ensures
        f.spec_bit() != 0,
        known(f.spec_bit()),
        f != g ==> f.spec_bit() & g.spec_bit() == 0,
        f != g ==> f.spec_bit() != g.spec_bit(),
        Feature::Admin.spec_bit() | Feature::Builder.spec_bit() == KNOWN_BITS,
{
    assert(ADMIN & BUILDER == 0 && BUILDER & ADMIN == 0) by (bit_vector);
    assert(ADMIN & !KNOWN_BITS == 0 && BUILDER & !KNOWN_BITS == 0) by (bit_vector);
    assert(ADMIN | BUILDER == KNOWN_BITS) by (bit_vector);
}

/// The names of the features differ.
pub proof fn lemma_feature_names(f: Feature, g: Feature)
    ensures
        f != g ==> f.spec_name() != g.spec_name(),
{
    reveal_strlit("ADMIN");
    reveal_strlit("BUILDER");
    assert("ADMIN"@.len() != "BUILDER"@.len());
}

/// True when `listed[i]` is called `name`.
pub open spec fn listed_as(listed: Seq<Feature>, i: int, name: Seq<char>) -> bool {
    0 <= i < listed.len() && listed[i].spec_name() == name
}

/// A listing of features as a map: the name of each listed feature, and
/// under it the feature's bit.
pub open spec fn listing(listed: Seq<Feature>) -> Map<Seq<char>, u32> {
    Map::new(
        |name: Seq<char>| exists|i: int| listed_as(listed, i, name),
        |name: Seq<char>| listed[choose|i: int| listed_as(listed, i, name)].spec_bit(),
    )
}

/// A listing of both features maps `ADMIN` to 1 and `BUILDER` to 2, two
/// values that differ, and holds no other name.
pub proof fn lemma_listing_of_all()
    ensures
        listing(seq![Feature::Admin, Feature::Builder]) == map!["ADMIN"@ => 1u32, "BUILDER"@ => 2u32],
        listing(seq![Feature::Admin, Feature::Builder]).dom().contains("ADMIN"@),
        listing(seq![Feature::Admin, Feature::Builder]).dom().contains("BUILDER"@),
        listing(seq![Feature::Admin, Feature::Builder])["ADMIN"@] == ADMIN,
        listing(seq![Feature::Admin, Feature::Builder])["BUILDER"@] == BUILDER,
        ADMIN != BUILDER,
{
    let all = seq![Feature::Admin, Feature::Builder];
    let expected = map!["ADMIN"@ => 1u32, "BUILDER"@ => 2u32];
    lemma_feature_names(Feature::Admin, Feature::Builder);
    assert(listed_as(all, 0, "ADMIN"@));
    assert(listed_as(all, 1, "BUILDER"@));
    assert forall|name: Seq<char>| listing(all).dom().contains(name) implies expected.dom().contains(
        name,
    ) && #[trigger] listing(all)[name] == expected[name] by {
        let i = choose|i: int| listed_as(all, i, name);
        assert(listed_as(all, i, name));
        assert(i == 0 || i == 1);
    }
    assert(listing(all) =~= expected);
}

/// True when `bits` holds no bit outside the named features.
pub open spec fn known(bits: u32) -> bool {
    bits & !KNOWN_BITS == 0
}

/// The value without any bit holds no unknown bit.
pub proof fn lemma_known_zero()
    ensures
        known(0u32),
{
    assert(0u32 & !KNOWN_BITS == 0) by (bit_vector);
}

/// The features whose bit is set in `bits`.
pub open spec fn features_of(bits: u32) -> Set<Feature> {
    Set::new(|f: Feature| bits & f.spec_bit() != 0)
}

/// The union of two flag values holds the features of both, and no other.
pub proof fn lemma_features_of_union(a: u32, b: u32)
    ensures
        features_of(a | b) == features_of(a).union(features_of(b)),
        known(a) && known(b) ==> known(a | b),
{
    assert forall|f: Feature| features_of(a | b).contains(f) == (features_of(a).contains(f)
        || features_of(b).contains(f)) by {
        let m = f.spec_bit();
        assert(((a | b) & m != 0) == (a & m != 0 || b & m != 0)) by (bit_vector);
    }
    assert(features_of(a | b) =~= features_of(a).union(features_of(b)));
    assert(a & !KNOWN_BITS == 0 && b & !KNOWN_BITS == 0 ==> (a | b) & !KNOWN_BITS == 0)
        by (bit_vector);
}

/// Flag values without unknown bits are equal when they hold the same
/// features.
pub proof fn lemma_features_decide(a: u32, b: u32)
    requires
        known(a),
        known(b),
        features_of(a) == features_of(b),
    ensures
        a == b,
{
    assert(features_of(a).contains(Feature::Admin) == (a & ADMIN != 0));
    assert(features_of(b).contains(Feature::Admin) == (b & ADMIN != 0));
    assert(features_of(a).contains(Feature::Builder) == (a & BUILDER != 0));
    assert(features_of(b).contains(Feature::Builder) == (b & BUILDER != 0));
    assert(a == b) by (bit_vector)
        requires
            a & !KNOWN_BITS == 0,
            b & !KNOWN_BITS == 0,
            (a & ADMIN != 0) == (b & ADMIN != 0),
            (a & BUILDER != 0) == (b & BUILDER != 0),
    ;
}

/// A set of features, held as the union of their bits.
///
/// A value of this type never holds a bit that names no feature.
#[derive(Clone, Copy, Debug, PartialEq, Eq)]
pub struct FeatureFlags {
    bits: u32,
}

impl View for FeatureFlags {
    type V = Set<Feature>;

    closed spec fn view(&self) -> Set<Feature> {
        features_of(self.bits)
    }
}

impl FeatureFlags {
    #[verifier::type_invariant]
    closed spec fn well_formed(self) -> bool {
        known(self.bits)
    }

    /// The bits of this set.
    pub closed spec fn spec_bits(&self) -> u32 {
        self.bits
    }

    /// The set without any feature.
    pub fn empty() -> (r: FeatureFlags)
        ensures
            r.spec_bits() == 0,
            r@ == Set::<Feature>::empty(),
    {
        assert(known(0u32)) by (bit_vector);
        assert(0u32 & ADMIN == 0 && 0u32 & BUILDER == 0) by (bit_vector);
        let r = FeatureFlags { bits: 0 };
        assert(r@ =~= Set::<Feature>::empty());
        r
    }

    /// The set of every feature.
    pub fn all() -> (r: FeatureFlags)
        ensures
            r.spec_bits() == KNOWN_BITS,
            r@ == Set::<Feature>::full(),
    {
        assert(known(KNOWN_BITS)) by (bit_vector);
        assert(KNOWN_BITS & ADMIN != 0 && KNOWN_BITS & BUILDER != 0) by (bit_vector);
        let r = FeatureFlags { bits: KNOWN_BITS };
        assert(r@ =~= Set::<Feature>::full());
        r
    }

    /// Decodes a flag value. A value with a bit that names no feature is
    /// rejected.
    pub fn from_bits(bits: u32) -> (r: Option<FeatureFlags>)
        ensures
            r is Some <==> known(bits),
            r matches Some(flags) ==> flags.spec_bits() == bits && flags@ == features_of(bits),
    {
        if bits & !KNOWN_BITS == 0 {
            Some(FeatureFlags { bits })
        } else {
            None
        }
    }

    /// The set of the features that are in `self` or in `other`.
    pub fn union(self, other: FeatureFlags) -> (r: FeatureFlags)
        ensures
            r.spec_bits() == self.spec_bits() | other.spec_bits(),
            r@ == self@.union(other@),
    {
        proof {
            use_type_invariant(self);
            use_type_invariant(other);
            lemma_features_of_union(self.bits, other.bits);
        }
        FeatureFlags { bits: self.bits | other.bits }
    }

    /// True when the set holds `feature`.
    pub fn has(&self, feature: Feature) -> (r: bool)
        ensures
            r == self@.contains(feature),
    {
        self.bits & feature.bit() != 0
    }

    /// True when the set holds no feature.
    pub fn is_empty(&self) -> (r: bool)
        ensures
            r == (self.spec_bits() == 0),
            r == (self@ == Set::<Feature>::empty()),
    {
        proof {
            use_type_invariant(self);
            assert(0u32 & ADMIN == 0 && 0u32 & BUILDER == 0) by (bit_vector);
            assert(known(0u32)) by (bit_vector);
            assert(features_of(0u32) =~= Set::<Feature>::empty());
            if self@ == Set::<Feature>::empty() {
                lemma_features_decide(self.bits, 0u32);
            }
        }
        self.bits == 0
    }

    /// The bits of this set.
    #[verifier::when_used_as_spec(spec_bits)]
    pub fn bits(&self) -> (r: u32)
        ensures
            r == self.spec_bits(),
            known(r),
            features_of(r) == self@,
    {
        proof {
            use_type_invariant(self);
        }
        self.bits
    }
}

} // verus!
