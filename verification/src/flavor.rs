//! Which librnp a build compiles.
//!
//! Every decision that depends on it, from the cache directory to the reported
//! version, is derived from a [`Flavor`], and the flavor is derived once from the
//! chosen features.

use vstd::prelude::*;
use vstd::string::StrSliceExecFns;

use crate::host::joined;

verus! {

/// librnp release that is compiled by default.
pub const RNP_VERSION: &'static str = "0.18.1";

/// The upstream commit that is compiled for the `pqc` and `crypto-refresh`
/// features.
///
/// The code of librnp 0.18.1 for these features does not compile against Botan
/// 3.12; upstream has the fixes. The commit is pinned so that a build is
/// reproducible, and the cache directory embeds its first eight digits, so that a pin
/// with other first digits leaves the artifacts of this one unused.
pub const RNP_HEAD_REF: &'static str = "470695b98abe8a427fc47847acb387c089cb156d";

/// The optional features of librnp.
#[derive(Clone, Copy, PartialEq, Eq, Debug, Structural)]
pub struct Features {
    /// Post-quantum algorithms.
    pub pqc: bool,
    /// The refreshed OpenPGP standard.
    pub crypto_refresh: bool,
}

/// Which librnp source a build compiles, with its backport level.
#[derive(Clone, Copy, PartialEq, Eq, Debug, Structural)]
pub enum Flavor {
    /// The 0.18.1 release tarball with the backport that pads short RSA numbers
    /// for Botan 3.13.
    Release0181B1,
    /// The pinned upstream commit.
    Head,
}

/// The name of the directory that a build of the upstream commit `pin` is installed
/// in: it embeds the first eight digits of the pin.
pub open spec fn head_cache_name(pin: Seq<char>) -> Seq<char> {
    "rnp-head-"@ + pin.take(8)
}

impl Flavor {
    /// The flavor that `features` call for.
    pub open spec fn of_features(features: Features) -> Flavor {
        if features.pqc || features.crypto_refresh {
            Flavor::Head
        } else {
            Flavor::Release0181B1
        }
    }

    /// The name of the directory that the flavor is installed in.
    pub open spec fn cache_name(self) -> Seq<char> {
        match self {
            Flavor::Release0181B1 => "rnp-0.18.1-b1"@,
            Flavor::Head => head_cache_name(RNP_HEAD_REF@),
        }
    }

    /// The version that is reported for the flavor.
    pub open spec fn version_name(self) -> Seq<char> {
        match self {
            Flavor::Release0181B1 => RNP_VERSION@,
            Flavor::Head => "head"@,
        }
    }

    /// Resolves the flavor from the chosen features.
    pub fn from_features(features: Features) -> (flavor: Self)
        ensures
            flavor == Flavor::of_features(features),
    {
        if features.pqc || features.crypto_refresh {
            Flavor::Head
        } else {
            Flavor::Release0181B1
        }
    }

    /// The name of the install directory. It names the source, the backport level of a
    /// release and the first eight digits of a pin, so that flavors never share an
    /// installed library, and neither do pins that differ in those digits.
    pub fn cache_dir(self) -> (name: String)
        ensures
            name@ == self.cache_name(),
    {
        match self {
            Flavor::Release0181B1 => "rnp-0.18.1-b1".to_string(),
            Flavor::Head => {
                proof {
                    reveal_strlit("470695b98abe8a427fc47847acb387c089cb156d");
                    assert(RNP_HEAD_REF@.subrange(0, 8) =~= RNP_HEAD_REF@.take(8));
                }
                joined("rnp-head-", RNP_HEAD_REF.substring_ascii(0, 8))
            },
        }
    }

    /// Whether this flavor needs json-c. The release tarball does; upstream has
    /// replaced it by a header of its own.
    pub fn needs_json_c(self) -> (result: bool)
        ensures
            result == (self == Flavor::Release0181B1),
    {
        matches!(self, Flavor::Release0181B1)
    }

    /// The reported version. `"head"` tells dependents that the interface drifts.
    pub fn librnp_version(self) -> (version: &'static str)
        ensures
            version@ == self.version_name(),
    {
        match self {
            Flavor::Release0181B1 => RNP_VERSION,
            Flavor::Head => "head",
        }
    }

    /// Whether this flavor builds from the upstream commit.
    pub fn is_head(self) -> (result: bool)
        ensures
            result == (self == Flavor::Head),
    {
        matches!(self, Flavor::Head)
    }
}

/// Flavors never share an install directory.
pub proof fn law_cache_names_never_collide(a: Flavor, b: Flavor)
    requires
        a.cache_name() == b.cache_name(),
    ensures
        a == b,
{
    reveal_strlit("rnp-head-");
    reveal_strlit("rnp-0.18.1-b1");
    assert(Flavor::Head.cache_name()[4] == 'h');
    assert(Flavor::Release0181B1.cache_name()[4] == '0');
}

/// Pins share an install directory exactly where their first eight digits agree.
pub proof fn law_pins_are_told_apart_by_eight_digits(p: Seq<char>, q: Seq<char>)
    ensures
        head_cache_name(p) == head_cache_name(q) <==> p.take(8) == q.take(8),
{
    let start = "rnp-head-"@.len() as int;
    assert(head_cache_name(p).skip(start) =~= p.take(8));
    assert(head_cache_name(q).skip(start) =~= q.take(8));
}

/// No pin shares an install directory with the release.
pub proof fn law_no_pin_shares_with_the_release(pin: Seq<char>)
    ensures
        head_cache_name(pin) != Flavor::Release0181B1.cache_name(),
{
    reveal_strlit("rnp-head-");
    reveal_strlit("rnp-0.18.1-b1");
    assert(head_cache_name(pin)[4] == 'h');
    assert(Flavor::Release0181B1.cache_name()[4] == '0');
}

/// Flavors never report the same version.
pub proof fn law_versions_tell_flavors_apart(a: Flavor, b: Flavor)
    requires
        a.version_name() == b.version_name(),
    ensures
        a == b,
{
    reveal_strlit("0.18.1");
    reveal_strlit("head");
    assert(Flavor::Head.version_name()[0] == 'h');
    assert(Flavor::Release0181B1.version_name()[0] == '0');
}

/// The pin is a full commit hash: forty hexadecimal digits.
pub proof fn law_pin_is_a_full_hash()
    ensures
        RNP_HEAD_REF@.len() == 40,
        forall|i: int|
            0 <= i < 40 ==> '0' <= #[trigger] RNP_HEAD_REF@[i] <= '9' || 'a' <= RNP_HEAD_REF@[i]
                <= 'f',
{
    reveal_strlit("470695b98abe8a427fc47847acb387c089cb156d");
}

/// The upstream commit is built exactly where one of the features is chosen.
pub proof fn law_any_feature_calls_for_the_commit(features: Features)
    ensures
        Flavor::of_features(features) == Flavor::Head <==> features.pqc || features.crypto_refresh,
{
}

/// The install directory of a pin is `rnp-head-` and the pin's first eight digits.
pub proof fn law_cache_name_starts_with_the_pin(pin: Seq<char>)
    requires
        pin.len() >= 8,
    ensures
        head_cache_name(pin).len() == 17,
        head_cache_name(pin).take(9) == "rnp-head-"@,
        forall|i: int| 0 <= i < 8 ==> head_cache_name(pin)[9 + i] == #[trigger] pin[i],
        Flavor::Head.cache_name() == head_cache_name(RNP_HEAD_REF@),
        Flavor::Release0181B1.cache_name() == "rnp-0.18.1-b1"@,
{
    reveal_strlit("rnp-head-");
    assert(head_cache_name(pin).take(9) =~= "rnp-head-"@);
}

} // verus!
