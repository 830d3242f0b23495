//! What the archive reader does with each member the decoder reports.

use vstd::prelude::*;

verus! {

/// What the decoder reported for the next member of an archive.
#[derive(Debug, Clone, Copy, PartialEq, Eq, Structural)]
pub enum MemberRead {
    /// A regular file whose name and bytes were read.
    Regular,
    /// A directory, link, device or other non-regular member.
    NotRegular,
    /// This member could not be decoded (its name or its bytes).
    EntryError,
    /// The container itself could not be decoded further.
    ContainerError,
    /// No member is left.
    End,
}

/// What the reader does next.
#[derive(Debug, Clone, Copy, PartialEq, Eq, Structural)]
pub enum MemberStep {
    /// Hand the member to the extractor.
    Take,
    /// Pass over the member and read the next one.
    Skip,
    /// End the sequence of members.
    Stop,
}

/// Regular files are taken; non-regular members and members that fail to
/// decode are passed over; a container error or the end stops the sequence.
pub open spec fn member_policy(m: MemberRead) -> MemberStep {
    match m {
        MemberRead::Regular => MemberStep::Take,
        MemberRead::NotRegular | MemberRead::EntryError => MemberStep::Skip,
        MemberRead::ContainerError | MemberRead::End => MemberStep::Stop,
    }
}

/// Decides what follows a member read.
pub fn member_step(m: MemberRead) -> (r: MemberStep)
    ensures
        r == member_policy(m),
{
    match m {
        MemberRead::Regular => MemberStep::Take,
        MemberRead::NotRegular | MemberRead::EntryError => MemberStep::Skip,
        MemberRead::ContainerError | MemberRead::End => MemberStep::Stop,
    }
}

} // verus!
