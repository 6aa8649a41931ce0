//! The identity of stored tool output, and the steps that store it once.
use vstd::prelude::*;
use vstd::string::*;

use crate::text;

verus! {

/// ASCII letters and digits.
pub open spec fn is_plain(c: char) -> bool {
    'a' <= c <= 'z' || 'A' <= c <= 'Z' || '0' <= c <= '9'
}

/// A label as it may stand in a file name.
pub open spec fn safe_label(label: Seq<char>) -> Seq<char> {
    label.map_values(
        |c: char|
            if is_plain(c) {
                c
            } else {
                '-'
            },
    )
}

/// The content-addressed id: the label and the content's digest.
pub open spec fn artifact_id(label: Seq<char>, digest: Seq<char>) -> Seq<char> {
    safe_label(label) + "-"@ + digest
}

/// A stored output.
#[derive(Clone, Debug, PartialEq, Eq)]
pub struct ArtifactHandle {
    pub id: String,
    pub size: u64,
}

impl ArtifactHandle {
    /// The stable identity of an output, from its label, the digest of its
    /// content and its length; no file is touched.
    pub fn preview(label: &str, digest: &str, size: u64) -> (r: ArtifactHandle)
        ensures
            r.id@ == artifact_id(label@, digest@),
            r.size == size,
    {
        let chars = text::chars_of(label);
        let mut id = String::new();
        let mut i: usize = 0;
        assert(safe_label(label@).take(0) =~= Seq::empty());
        while i < chars.len()
            invariant
                i <= chars@.len(),
                chars@ == label@,
                id@ == safe_label(label@).take(i as int),
            decreases chars@.len() - i,
        {
            let c = chars[i];
            let plain = ('a' <= c && c <= 'z') || ('A' <= c && c <= 'Z') || ('0' <= c && c <= '9');
            id.push(
                if plain {
                    c
                } else {
                    '-'
                },
            );
            assert(safe_label(label@).take(i + 1) =~= safe_label(label@).take(i as int).push(
                safe_label(label@)[i as int],
            ));
            i = i + 1;
        }
        assert(safe_label(label@).take(label@.len() as int) =~= safe_label(label@));
        id.append("-");
        id.append(digest);
        ArtifactHandle { id, size }
    }

    /// Whether the file of that id, of the given length if there is one,
    /// already holds the output.
    pub fn is_stored(&self, stored: Option<u64>) -> (r: bool)
        ensures
            r == (stored == Some(self.size)),
    {
        match stored {
            Some(length) => length == self.size,
            None => false,
        }
    }
}

/// What a staged output needs to be stored.
#[derive(Clone, Copy, Debug, PartialEq, Eq, Structural)]
pub enum CommitStep {
    /// Nothing: it is stored.
    Keep,
    /// Another stored it meanwhile: remove the staged file.
    RemoveStaged,
    /// Rename the staged file to the id.
    Rename,
    /// Remove the staged file and report the failed rename.
    Fail,
}

/// The step before a rename was tried.
pub fn commit_step(handle: &ArtifactHandle, staged: bool, stored: Option<u64>) -> (r: CommitStep)
    ensures
        r == if !staged {
            CommitStep::Keep
        } else if stored == Some(handle.size) {
            CommitStep::RemoveStaged
        } else {
            CommitStep::Rename
        },
{
    if !staged {
        CommitStep::Keep
    } else if handle.is_stored(stored) {
        CommitStep::RemoveStaged
    } else {
        CommitStep::Rename
    }
}

/// The step after a rename was tried.
pub fn after_rename(handle: &ArtifactHandle, renamed: bool, stored: Option<u64>) -> (r: CommitStep)
    ensures
        r == if renamed {
            CommitStep::Keep
        } else if stored == Some(handle.size) {
            CommitStep::RemoveStaged
        } else {
            CommitStep::Fail
        },
{
    if renamed {
        CommitStep::Keep
    } else if handle.is_stored(stored) {
        CommitStep::RemoveStaged
    } else {
        CommitStep::Fail
    }
}

/// Outputs under one label share an id exactly when their digests agree.
pub proof fn law_id_tells_digests_apart(label: Seq<char>, a: Seq<char>, b: Seq<char>)
    ensures
        artifact_id(label, a) == artifact_id(label, b) <==> a == b,
{
    let head = safe_label(label) + "-"@;
    assert(artifact_id(label, a) == head + a);
    assert(artifact_id(label, b) == head + b);
    if head + a == head + b {
        assert(a =~= (head + a).skip(head.len() as int));
        assert(b =~= (head + b).skip(head.len() as int));
    }
}

} // verus!
