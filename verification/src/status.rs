//! Risk tiers and the join that combines them.

use vstd::prelude::*;

verus! {

/// How well a call site, a file or a project pins what it downloads.
///
/// The variants are listed from least to most severe.
#[derive(Debug, PartialEq, Eq, Hash, Clone, Copy, Structural)]
pub enum Status {
    /// Pinned to an immutable identifier, or exempt from pinning.
    Safe,
    /// Pinned to a mutable tag or branch.
    PartiallySafe,
    /// Not pinned at all.
    Unsafe,
}

impl Status {
    /// The rank of a tier in the severity order: 0, 1 or 2.
    pub open spec fn severity(self) -> nat {
        match self {
            Status::Safe => 0,
            Status::PartiallySafe => 1,
            Status::Unsafe => 2,
        }
    }

    /// The more severe of two tiers.
    pub open spec fn spec_join(self, other: Status) -> Status {
        if self.severity() >= other.severity() {
            self
        } else {
            other
        }
    }

    /// The name of a tier in reports.
    pub open spec fn spec_label(self) -> Seq<char> {
        match self {
            Status::Safe => "safe"@,
            Status::PartiallySafe => "partially_safe"@,
            Status::Unsafe => "unsafe"@,
        }
    }

    /// The name of a tier in reports: `safe`, `partially_safe` or `unsafe`.
    pub fn label(self) -> (r: &'static str)
        ensures
            r@ == self.spec_label(),
    {
        match self {
            Status::Safe => "safe",
            Status::PartiallySafe => "partially_safe",
            Status::Unsafe => "unsafe",
        }
    }

    /// The worst tier among the calls of one file, given how many of them are
    /// safe, partially safe and unsafe. A file without calls has no tier.
    pub open spec fn spec_of_counts(safe: nat, partial: nat, unsafe_: nat) -> Option<Status> {
        if unsafe_ > 0 {
            Some(Status::Unsafe)
        } else if partial > 0 {
            Some(Status::PartiallySafe)
        } else if safe > 0 {
            Some(Status::Safe)
        } else {
            None
        }
    }

    /// The worst tier among the calls of one file: unsafe if any call is,
    /// else partially safe if any call is, else safe; none for a file
    /// without calls.
    pub fn of_counts(safe: usize, partial: usize, unsafe_: usize) -> (r: Option<Status>)
        ensures
            r == Status::spec_of_counts(safe as nat, partial as nat, unsafe_ as nat),
    {
        if unsafe_ > 0 {
            Some(Status::Unsafe)
        } else if partial > 0 {
            Some(Status::PartiallySafe)
        } else if safe > 0 {
            Some(Status::Safe)
        } else {
            None
        }
    }

    /// Combines two tiers into the more severe one.
    pub fn join(self, other: Status) -> (r: Status)
        ensures
            r == self.spec_join(other),
            r.severity() >= self.severity(),
            r.severity() >= other.severity(),
            r == self || r == other,
    {
        match (self, other) {
            (Status::Unsafe, _) => Status::Unsafe,
            (_, Status::Unsafe) => Status::Unsafe,
            (Status::PartiallySafe, _) => Status::PartiallySafe,
            (_, Status::PartiallySafe) => Status::PartiallySafe,
            _ => Status::Safe,
        }
    }
}

/// The order in which two tiers are joined does not matter.
pub proof fn lemma_join_commutative(a: Status, b: Status)
    ensures
        a.spec_join(b) == b.spec_join(a),
{
}

/// Joining three tiers gives the same tier however they are grouped.
pub proof fn lemma_join_associative(a: Status, b: Status, c: Status)
    ensures
        a.spec_join(b).spec_join(c) == a.spec_join(b.spec_join(c)),
{
}

/// Joining a tier with itself changes nothing.
pub proof fn lemma_join_idempotent(a: Status)
    ensures
        a.spec_join(a) == a,
{
}

/// The join is the least tier that is at least as severe as both: it is as
/// severe as each of the two, and no tier that is so is less severe than it.
pub proof fn lemma_join_least_upper_bound(a: Status, b: Status, c: Status)
    ensures
        a.spec_join(b).severity() >= a.severity(),
        a.spec_join(b).severity() >= b.severity(),
        c.severity() >= a.severity() && c.severity() >= b.severity() ==> c.severity()
            >= a.spec_join(b).severity(),
{
}

/// Safe changes no tier it is joined with, and unsafe overrides every tier.
pub proof fn lemma_join_ends(a: Status)
    ensures
        Status::Safe.spec_join(a) == a,
        a.spec_join(Status::Safe) == a,
        Status::Unsafe.spec_join(a) == Status::Unsafe,
        a.spec_join(Status::Unsafe) == Status::Unsafe,
{
}

/// Tiers of equal severity are the same tier.
pub proof fn lemma_severity_injective(a: Status, b: Status)
    ensures
        a.severity() == b.severity() <==> a == b,
{
}

} // verus!
