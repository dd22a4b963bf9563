//! Answers of the file system: whether a path exists, together with the path asked about.
use vstd::prelude::*;

verus! {

/// What the file system answered when asked whether `path` exists. Only `ask_exists`
/// makes one, so an answer is always about the path it records.
pub struct DiskAnswer {
    asked: Ghost<Seq<char>>,
    present: bool,
}

impl DiskAnswer {
    /// The path this answer is about.
    pub closed spec fn asked(&self) -> Seq<char> {
        self.asked@
    }

    /// Whether the path was reported to exist.
    pub closed spec fn is_present(&self) -> bool {
        self.present
    }

    /// Whether the path was reported to exist.
    pub fn present(&self) -> (r: bool)
        ensures
            r == self.is_present(),
    {
        self.present
    }
}

/// `Path::exists` (`std::path`): asks the file system whether `path` has an entry.
/// Claimed: the answer is about `path`. Nothing is claimed of the answer itself: it
/// depends on the disk.
#[verifier::external_body]
pub fn ask_exists(path: &str) -> (r: DiskAnswer)
    ensures
        r.asked() == path@,
{
    DiskAnswer { asked: Ghost(path@), present: std::path::Path::new(path).exists() }
}

/// The answers' flags, in order.
pub open spec fn flags(a: Seq<DiskAnswer>) -> Seq<bool> {
    a.map_values(|x: DiskAnswer| x.is_present())
}

/// `answers[i]` is about `paths[i]`, for every answer given.
pub open spec fn about(answers: Seq<DiskAnswer>, paths: Seq<Seq<char>>) -> bool {
    &&& answers.len() <= paths.len()
    &&& forall|i: int| 0 <= i < answers.len() ==> #[trigger] answers[i].asked() == paths[i]
}

} // verus!
