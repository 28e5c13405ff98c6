//! Removal of a segment that the journal holds: every file is checked once more just
//! before it is unlinked, and what is in doubt is put back.

use vstd::prelude::*;
use vstd::string::*;

use crate::journal::{acknowledged_views, AcknowledgedFile, FileView};
use crate::sync::segments::{
    candidate_is_valid, is_candidate, CandidateView, DirectoryState, ResolvedSegmentFiles,
    SegmentCandidate, SegmentWay,
};
use crate::text::{concat, decimal, decimal_text, opt_text, same_text, same_texts, texts};

verus! {

/// A file by what tells it from any other.
#[derive(Debug, PartialEq, Eq)]
pub struct FileIdentity {
    pub name: String,
    pub device: u64,
    pub inode: u64,
    pub size: u64,
    pub mtime: i64,
    pub mtime_nsec: i64,
    pub ctime: i64,
    pub ctime_nsec: i64,
}

pub ghost struct FileIdentityView {
    pub name: Seq<char>,
    pub device: u64,
    pub inode: u64,
    pub size: u64,
    pub mtime: i64,
    pub mtime_nsec: i64,
    pub ctime: i64,
    pub ctime_nsec: i64,
}

impl View for FileIdentity {
    type V = FileIdentityView;

    open spec fn view(&self) -> FileIdentityView {
        FileIdentityView {
            name: self.name@,
            device: self.device,
            inode: self.inode,
            size: self.size,
            mtime: self.mtime,
            mtime_nsec: self.mtime_nsec,
            ctime: self.ctime,
            ctime_nsec: self.ctime_nsec,
        }
    }
}

impl Clone for FileIdentity {
    fn clone(&self) -> (r: Self)
        ensures
            r == *self,
    {
        FileIdentity {
            name: self.name.clone(),
            device: self.device,
            inode: self.inode,
            size: self.size,
            mtime: self.mtime,
            mtime_nsec: self.mtime_nsec,
            ctime: self.ctime,
            ctime_nsec: self.ctime_nsec,
        }
    }
}

impl FileIdentity {
    /// Whether the two are the same file, unchanged.
    pub fn same(&self, other: &Self) -> (r: bool)
        ensures
            r == (self@ == other@),
    {
        same_text(self.name.as_str(), other.name.as_str()) && self.device == other.device
            && self.inode == other.inode && self.size == other.size && self.mtime == other.mtime
            && self.mtime_nsec == other.mtime_nsec && self.ctime == other.ctime && self.ctime_nsec
            == other.ctime_nsec
    }
}

pub open spec fn identity_views(v: Seq<FileIdentity>) -> Seq<FileIdentityView> {
    v.map_values(|f: FileIdentity| f@)
}

/// Whether the two lists are the same files in the same order, unchanged.
pub fn same_identities(a: &Vec<FileIdentity>, b: &Vec<FileIdentity>) -> (r: bool)
    ensures
        r == (identity_views(a@) == identity_views(b@)),
{
    if a.len() != b.len() {
        proof {
            assert(identity_views(a@).len() != identity_views(b@).len());
        }
        return false;
    }
    let mut i: usize = 0;
    while i < a.len()
        invariant
            i <= a@.len(),
            a@.len() == b@.len(),
            forall|j: int| 0 <= j < i ==> identity_views(a@)[j] == identity_views(b@)[j],
        decreases a@.len() - i,
    {
        if !a[i].same(&b[i]) {
            proof {
                assert(identity_views(a@)[i as int] != identity_views(b@)[i as int]);
            }
            return false;
        }
        i = i + 1;
    }
    proof {
        assert(identity_views(a@) =~= identity_views(b@));
    }
    true
}

/// What an open file says of itself.
#[derive(Clone, Copy, Debug, PartialEq, Eq, Structural)]
pub struct FileFacts {
    pub device: u64,
    pub inode: u64,
    pub size: u64,
}

/// The open file is the expected one.
pub open spec fn facts_match(facts: Option<FileFacts>, expected: FileIdentityView) -> bool {
    facts == Some(
        FileFacts { device: expected.device, inode: expected.inode, size: expected.size },
    )
}

/// Whether the open file is the expected one. A file that could not be opened is
/// nothing.
pub fn metadata_matches(facts: Option<FileFacts>, expected: &FileIdentity) -> (r: bool)
    ensures
        r == facts_match(facts, expected@),
{
    match facts {
        Some(facts) => facts.device == expected.device && facts.inode == expected.inode
            && facts.size == expected.size,
        None => false,
    }
}

#[derive(Clone, Copy, Debug, PartialEq, Eq, Structural)]
pub enum SegmentRemovalStage {
    FilesUnlinked,
    DirectoryUnlinked,
}

#[derive(Clone, Copy, Debug, PartialEq, Eq, Structural)]
pub enum RemovalResult {
    /// The segment is gone.
    Removed,
    /// It was not there.
    Absent,
    /// It is not what was expected, and was left as it is.
    Refused,
    /// It was found changed while it was removed, and put back.
    Failed,
}

/// Where a removal stands.
#[derive(Clone, Copy, Debug, PartialEq, Eq, Structural)]
pub enum RemovalStep {
    OpeningDirectories,
    /// The file of that number is being opened, so that it can be put back.
    Opening(usize),
    /// The file of that number is being checked a last time.
    Probing(usize),
    /// The file of that number has been proved and is being unlinked.
    Unlinking(usize),
    RemovingDirectory,
    Restoring,
    Done(RemovalResult),
}

/// What came of what a removal asked for.
#[derive(Debug)]
pub enum RemovalEvent {
    DirectoriesOpened(bool),
    FileOpened(Option<FileFacts>),
    /// The file as it stands now, and the digest of its contents.
    Probed { facts: Option<FileFacts>, digest: Option<String> },
    Unlinked(bool),
    DirectoryRemoved(bool),
    Restored,
}

/// A removal under way.
#[derive(Debug)]
pub struct Removal {
    pub identities: Vec<FileIdentity>,
    /// The digest that each file must have, by its name.
    pub digests: Vec<(String, String)>,
    pub step: RemovalStep,
}

/// The digest that a file must have: the last one under its name.
pub open spec fn digest_for(digests: Seq<(String, String)>, name: Seq<char>) -> Option<Seq<char>>
    decreases digests.len(),
{
    if digests.len() == 0 {
        None
    } else if digests.last().0@ == name {
        Some(digests.last().1@)
    } else {
        digest_for(digests.drop_last(), name)
    }
}

fn find_digest<'a>(digests: &'a Vec<(String, String)>, name: &str) -> (r: Option<&'a String>)
    ensures
        match r {
            Some(digest) => digest_for(digests@, name@) == Some(digest@),
            None => digest_for(digests@, name@) is None,
        },
{
    let mut n: usize = digests.len();
    proof {
        assert(digests@.take(n as int) =~= digests@);
    }
    while n > 0
        invariant
            n <= digests@.len(),
            digest_for(digests@, name@) == digest_for(digests@.take(n as int), name@),
        decreases n,
    {
        proof {
            assert(digests@.take(n as int).drop_last() =~= digests@.take(n - 1));
        }
        if same_text(digests[n - 1].0.as_str(), name) {
            return Some(&digests[n - 1].1);
        }
        n = n - 1;
    }
    None
}

/// The name and the digest of each file.
pub open spec fn digest_pairs(files: Seq<FileView>) -> Seq<(Seq<char>, Seq<char>)> {
    files.map_values(|f: FileView| (f.submitted, f.sha256))
}

/// The name and the digest of each file: what the files must have to be removed.
pub fn digests_of(files: &Vec<AcknowledgedFile>) -> (r: Vec<(String, String)>)
    ensures
        r@.map_values(|p: (String, String)| (p.0@, p.1@)) == digest_pairs(
            acknowledged_views(files@),
        ),
{
    let ghost expected = digest_pairs(acknowledged_views(files@));
    let mut out: Vec<(String, String)> = Vec::new();
    let mut i: usize = 0;
    while i < files.len()
        invariant
            i <= files@.len(),
            expected == digest_pairs(acknowledged_views(files@)),
            out@.map_values(|p: (String, String)| (p.0@, p.1@)) =~= expected.take(i as int),
        decreases files@.len() - i,
    {
        let file = &files[i];
        let ghost before = out@.map_values(|p: (String, String)| (p.0@, p.1@));
        out.push((file.submitted.clone(), file.sha256.clone()));
        proof {
            assert(acknowledged_views(files@)[i as int] == file@);
            assert(out@.map_values(|p: (String, String)| (p.0@, p.1@)) =~= before.push(
                (file.submitted@, file.sha256@),
            ));
            assert(expected.take(i + 1) =~= expected.take(i as int).push(expected[i as int]));
        }
        i = i + 1;
    }
    proof {
        assert(expected.take(files@.len() as int) =~= expected);
    }
    out
}

/// A digest is found where all entries under the name have it, and there is one.
pub proof fn lemma_digest_found(digests: Seq<(String, String)>, name: Seq<char>, sha256: Seq<char>)
    requires
        exists|j: int| 0 <= j < digests.len() && (#[trigger] digests[j]).0@ == name,
        forall|j: int|
            0 <= j < digests.len() && (#[trigger] digests[j]).0@ == name ==> digests[j].1@ == sha256,
    ensures
        digest_for(digests, name) == Some(sha256),
    decreases digests.len(),
{
    let j = choose|j: int| 0 <= j < digests.len() && (#[trigger] digests[j]).0@ == name;
    if digests.last().0@ == name {
        assert(digests[digests.len() - 1].1@ == sha256);
    } else {
        let shorter = digests.drop_last();
        assert(shorter[j] == digests[j]);
        assert forall|k: int| 0 <= k < shorter.len() && (#[trigger] shorter[k]).0@ == name implies shorter[k].1@
            == sha256 by {
            assert(shorter[k] == digests[k]);
        }
        lemma_digest_found(shorter, name, sha256);
    }
}

/// The file as it stands is the one that the journal holds.
pub open spec fn probe_proves(
    identities: Seq<FileIdentity>,
    digests: Seq<(String, String)>,
    i: int,
    facts: Option<FileFacts>,
    digest: Option<Seq<char>>,
) -> bool {
    &&& facts_match(facts, identities[i]@)
    &&& digest_for(digests, identities[i].name@) is Some
    &&& digest == digest_for(digests, identities[i].name@)
}

/// Where a removal stands after an event. An event that was not asked for changes
/// nothing.
pub open spec fn removal_next(
    identities: Seq<FileIdentity>,
    digests: Seq<(String, String)>,
    step: RemovalStep,
    event: RemovalEvent,
) -> RemovalStep {
    match (step, event) {
        (RemovalStep::OpeningDirectories, RemovalEvent::DirectoriesOpened(opened)) => if opened {
            RemovalStep::Opening(0)
        } else {
            RemovalStep::Done(RemovalResult::Refused)
        },
        (RemovalStep::Opening(i), RemovalEvent::FileOpened(facts)) => if !facts_match(
            facts,
            identities[i as int]@,
        ) {
            RemovalStep::Done(RemovalResult::Refused)
        } else if i + 1 < identities.len() {
            RemovalStep::Opening((i + 1) as usize)
        } else {
            RemovalStep::Probing(0)
        },
        (RemovalStep::Probing(i), RemovalEvent::Probed { facts, digest }) => if probe_proves(
            identities,
            digests,
            i as int,
            facts,
            opt_text(digest),
        ) {
            RemovalStep::Unlinking(i)
        } else {
            RemovalStep::Restoring
        },
        (RemovalStep::Unlinking(i), RemovalEvent::Unlinked(unlinked)) => if !unlinked {
            RemovalStep::Restoring
        } else if i + 1 < identities.len() {
            RemovalStep::Probing((i + 1) as usize)
        } else {
            RemovalStep::RemovingDirectory
        },
        (RemovalStep::RemovingDirectory, RemovalEvent::DirectoryRemoved(removed)) => if removed {
            RemovalStep::Done(RemovalResult::Removed)
        } else {
            RemovalStep::Restoring
        },
        (RemovalStep::Restoring, RemovalEvent::Restored) => RemovalStep::Done(
            RemovalResult::Failed,
        ),
        _ => step,
    }
}

/// The stage that an observer hears of, where an event reaches one.
pub open spec fn stage_reached(before: RemovalStep, after: RemovalStep) -> Option<
    SegmentRemovalStage,
> {
    if before is Unlinking && after == RemovalStep::RemovingDirectory {
        Some(SegmentRemovalStage::FilesUnlinked)
    } else if before == RemovalStep::RemovingDirectory && after == RemovalStep::Done(
        RemovalResult::Removed,
    ) {
        Some(SegmentRemovalStage::DirectoryUnlinked)
    } else {
        None
    }
}

impl Removal {
    /// The file at hand is one of the segment's.
    pub open spec fn well_formed(self) -> bool {
        match self.step {
            RemovalStep::OpeningDirectories => self.identities@.len() > 0,
            RemovalStep::Opening(i) => i < self.identities@.len(),
            RemovalStep::Probing(i) => i < self.identities@.len(),
            RemovalStep::Unlinking(i) => i < self.identities@.len(),
            _ => true,
        }
    }

    /// A removal of the files `expected_names`, where the segment still holds exactly
    /// those, unchanged. `now` is nothing where a file could not be looked at.
    pub fn begin(
        resolved: &ResolvedSegmentFiles,
        now: &Option<Vec<FileIdentity>>,
        expected_names: &Vec<String>,
        expected_identities: Vec<FileIdentity>,
        digests: Vec<(String, String)>,
    ) -> (r: Self)
        ensures
            r.well_formed(),
            r.identities == expected_identities,
            r.digests == digests,
            r.step == removal_start(*resolved, *now, expected_names@, expected_identities@),
    {
        let step = match resolved {
            ResolvedSegmentFiles::Found(names) => {
                let unchanged = match now {
                    Some(found) => same_identities(found, &expected_identities),
                    None => false,
                };
                if unchanged && same_texts(names, expected_names) && expected_identities.len() > 0 {
                    RemovalStep::OpeningDirectories
                } else {
                    RemovalStep::Done(RemovalResult::Refused)
                }
            },
            ResolvedSegmentFiles::Missing => RemovalStep::Done(RemovalResult::Absent),
            _ => RemovalStep::Done(RemovalResult::Refused),
        };
        Removal { identities: expected_identities, digests, step }
    }

    /// Takes an event in. The result is the stage that an observer hears of.
    pub fn advance(&mut self, event: RemovalEvent) -> (r: Option<SegmentRemovalStage>)
        requires
            old(self).well_formed(),
        ensures
            final(self).well_formed(),
            final(self).identities == old(self).identities,
            final(self).digests == old(self).digests,
            final(self).step == removal_next(
                old(self).identities@,
                old(self).digests@,
                old(self).step,
                event,
            ),
            r == stage_reached(old(self).step, final(self).step),
    {
        let n: usize = self.identities.len();
        let before = self.step;
        let after = match (before, event) {
            (RemovalStep::OpeningDirectories, RemovalEvent::DirectoriesOpened(opened)) => {
                if opened {
                    RemovalStep::Opening(0)
                } else {
                    RemovalStep::Done(RemovalResult::Refused)
                }
            },
            (RemovalStep::Opening(i), RemovalEvent::FileOpened(facts)) => {
                if !metadata_matches(facts, &self.identities[i]) {
                    RemovalStep::Done(RemovalResult::Refused)
                } else if i + 1 < n {
                    RemovalStep::Opening(i + 1)
                } else {
                    RemovalStep::Probing(0)
                }
            },
            (RemovalStep::Probing(i), RemovalEvent::Probed { facts, digest }) => {
                let matches_facts = metadata_matches(facts, &self.identities[i]);
                let same_digest = match (
                    find_digest(&self.digests, self.identities[i].name.as_str()),
                    &digest,
                ) {
                    (Some(expected), Some(found)) => same_text(expected.as_str(), found.as_str()),
                    _ => false,
                };
                if matches_facts && same_digest {
                    RemovalStep::Unlinking(i)
                } else {
                    RemovalStep::Restoring
                }
            },
            (RemovalStep::Unlinking(i), RemovalEvent::Unlinked(unlinked)) => {
                if !unlinked {
                    RemovalStep::Restoring
                } else if i + 1 < n {
                    RemovalStep::Probing(i + 1)
                } else {
                    RemovalStep::RemovingDirectory
                }
            },
            (RemovalStep::RemovingDirectory, RemovalEvent::DirectoryRemoved(removed)) => {
                if removed {
                    RemovalStep::Done(RemovalResult::Removed)
                } else {
                    RemovalStep::Restoring
                }
            },
            (RemovalStep::Restoring, RemovalEvent::Restored) => RemovalStep::Done(
                RemovalResult::Failed,
            ),
            _ => before,
        };
        self.step = after;
        match (before, after) {
            (RemovalStep::Unlinking(_), RemovalStep::RemovingDirectory) => Some(
                SegmentRemovalStage::FilesUnlinked,
            ),
            (
                RemovalStep::RemovingDirectory,
                RemovalStep::Done(RemovalResult::Removed),
            ) => Some(SegmentRemovalStage::DirectoryUnlinked),
            _ => None,
        }
    }
}

/// Where a removal starts.
pub open spec fn removal_start(
    resolved: ResolvedSegmentFiles,
    now: Option<Vec<FileIdentity>>,
    expected_names: Seq<String>,
    expected_identities: Seq<FileIdentity>,
) -> RemovalStep {
    match resolved {
        ResolvedSegmentFiles::Found(names) => if texts(names@) == texts(expected_names) && now is Some
            && identity_views(now->0@) == identity_views(expected_identities)
            && expected_identities.len() > 0 {
            RemovalStep::OpeningDirectories
        } else {
            RemovalStep::Done(RemovalResult::Refused)
        },
        ResolvedSegmentFiles::Missing => RemovalStep::Done(RemovalResult::Absent),
        _ => RemovalStep::Done(RemovalResult::Refused),
    }
}

// ---------------------------------------------------------------------------
// What a removal keeps
// ---------------------------------------------------------------------------

/// A file is unlinked only right after it was found to be the expected file with
/// the digest that the journal holds.
pub proof fn lemma_unlink_needs_proof(
    identities: Seq<FileIdentity>,
    digests: Seq<(String, String)>,
    step: RemovalStep,
    event: RemovalEvent,
    i: usize,
)
    requires
        removal_next(identities, digests, step, event) == RemovalStep::Unlinking(i),
        step != RemovalStep::Unlinking(i),
    ensures
        step == RemovalStep::Probing(i),
        event matches RemovalEvent::Probed { facts, digest } && probe_proves(
            identities,
            digests,
            i as int,
            facts,
            opt_text(digest),
        ),
{
}

/// A step at which no file has been unlinked yet.
pub open spec fn is_untouched(step: RemovalStep) -> bool {
    match step {
        RemovalStep::OpeningDirectories => true,
        RemovalStep::Opening(_) => true,
        RemovalStep::Probing(i) => i == 0,
        RemovalStep::Unlinking(i) => i == 0,
        _ => false,
    }
}

/// The steps of a removal under a list of events, the first step first.
pub open spec fn removal_steps(
    identities: Seq<FileIdentity>,
    digests: Seq<(String, String)>,
    first: RemovalStep,
    events: Seq<RemovalEvent>,
) -> Seq<RemovalStep>
    decreases events.len(),
{
    if events.len() == 0 {
        seq![first]
    } else {
        let before = removal_steps(identities, digests, first, events.drop_last());
        before.push(removal_next(identities, digests, before.last(), events.last()))
    }
}

/// A step before the first file is checked for removal.
pub open spec fn is_preparing(step: RemovalStep) -> bool {
    step == RemovalStep::OpeningDirectories || step is Opening
}

/// A removal that is refused has unlinked nothing: it never got past preparing.
pub proof fn lemma_refused_touches_nothing(
    identities: Seq<FileIdentity>,
    digests: Seq<(String, String)>,
    events: Seq<RemovalEvent>,
    k: int,
)
    requires
        ({
            let steps = removal_steps(
                identities,
                digests,
                RemovalStep::OpeningDirectories,
                events,
            );
            &&& steps.last() == RemovalStep::Done(RemovalResult::Refused)
            &&& 0 <= k < steps.len()
        }),
    ensures
        ({
            let step = removal_steps(
                identities,
                digests,
                RemovalStep::OpeningDirectories,
                events,
            )[k];
            is_preparing(step) || step == RemovalStep::Done(RemovalResult::Refused)
        }),
    decreases events.len(),
{
    let steps = removal_steps(identities, digests, RemovalStep::OpeningDirectories, events);
    if events.len() > 0 {
        let before = removal_steps(
            identities,
            digests,
            RemovalStep::OpeningDirectories,
            events.drop_last(),
        );
        lemma_steps_nonempty(
            identities,
            digests,
            RemovalStep::OpeningDirectories,
            events.drop_last(),
        );
        if before.last() == RemovalStep::Done(RemovalResult::Refused) {
            if k < before.len() {
                lemma_refused_touches_nothing(identities, digests, events.drop_last(), k);
            }
        } else if k < before.len() {
            assert(is_preparing(before.last()));
            lemma_preparing_from_start(identities, digests, events.drop_last(), k);
        }
    }
}

proof fn lemma_steps_nonempty(
    identities: Seq<FileIdentity>,
    digests: Seq<(String, String)>,
    first: RemovalStep,
    events: Seq<RemovalEvent>,
)
    ensures
        removal_steps(identities, digests, first, events).len() == events.len() + 1,
    decreases events.len(),
{
    if events.len() > 0 {
        lemma_steps_nonempty(identities, digests, first, events.drop_last());
    }
}

proof fn lemma_preparing_from_start(
    identities: Seq<FileIdentity>,
    digests: Seq<(String, String)>,
    events: Seq<RemovalEvent>,
    k: int,
)
    requires
        ({
            let steps = removal_steps(
                identities,
                digests,
                RemovalStep::OpeningDirectories,
                events,
            );
            &&& is_preparing(steps.last())
            &&& 0 <= k < steps.len()
        }),
    ensures
        is_preparing(
            removal_steps(identities, digests, RemovalStep::OpeningDirectories, events)[k],
        ),
    decreases events.len(),
{
    if events.len() > 0 {
        let before = removal_steps(
            identities,
            digests,
            RemovalStep::OpeningDirectories,
            events.drop_last(),
        );
        lemma_steps_nonempty(
            identities,
            digests,
            RemovalStep::OpeningDirectories,
            events.drop_last(),
        );
        if k < before.len() {
            lemma_preparing_from_start(identities, digests, events.drop_last(), k);
        }
    }
}

/// The file of that number was proved at some time of the removal.
pub open spec fn was_proved(
    identities: Seq<FileIdentity>,
    digests: Seq<(String, String)>,
    events: Seq<RemovalEvent>,
    i: int,
) -> bool {
    exists|k: int|
        0 <= k < events.len() && proves_at(
            identities,
            digests,
            removal_steps(
                identities,
                digests,
                RemovalStep::OpeningDirectories,
                events.take(k),
            ).last(),
            #[trigger] events[k],
            i,
        )
}

/// The event proves the file of that number, which was being checked.
pub open spec fn proves_at(
    identities: Seq<FileIdentity>,
    digests: Seq<(String, String)>,
    step: RemovalStep,
    event: RemovalEvent,
    i: int,
) -> bool {
    step == RemovalStep::Probing(i as usize) && (event matches RemovalEvent::Probed { facts, digest }
        && probe_proves(identities, digests, i, facts, opt_text(digest)))
}

/// How many files have been proved at a step, counted from the first.
pub open spec fn proved_count(step: RemovalStep, files: int) -> int {
    match step {
        RemovalStep::Probing(i) => i as int,
        RemovalStep::Unlinking(i) => i + 1,
        RemovalStep::RemovingDirectory => files,
        RemovalStep::Done(RemovalResult::Removed) => files,
        _ => 0,
    }
}

/// Whatever happens, a segment is gone only after every one of its files was found to
/// be the expected one with the digest that the journal holds.
pub proof fn lemma_removed_segment_was_proved(
    identities: Seq<FileIdentity>,
    digests: Seq<(String, String)>,
    events: Seq<RemovalEvent>,
    i: int,
)
    requires
        identities.len() <= usize::MAX,
        0 <= i < proved_count(
            removal_steps(identities, digests, RemovalStep::OpeningDirectories, events).last(),
            identities.len() as int,
        ),
        i < identities.len(),
    ensures
        was_proved(identities, digests, events, i),
    decreases events.len(),
{
    let steps = removal_steps(identities, digests, RemovalStep::OpeningDirectories, events);
    if events.len() > 0 {
        let n = events.len() - 1;
        let before = events.drop_last();
        let earlier = removal_steps(identities, digests, RemovalStep::OpeningDirectories, before);
        let step = earlier.last();
        assert(steps.last() == removal_next(identities, digests, step, events.last()));
        assert(events.take(n) =~= before);
        if i < proved_count(step, identities.len() as int) {
            lemma_removed_segment_was_proved(identities, digests, before, i);
            let k = choose|k: int|
                0 <= k < before.len() && proves_at(
                    identities,
                    digests,
                    removal_steps(
                        identities,
                        digests,
                        RemovalStep::OpeningDirectories,
                        before.take(k),
                    ).last(),
                    #[trigger] before[k],
                    i,
                );
            assert(before.take(k) =~= events.take(k));
            assert(events[k] == before[k]);
        } else {
            match step {
                RemovalStep::Probing(j) => {
                    assert(steps.last() == RemovalStep::Unlinking(j));
                    assert(i == j);
                    assert(proves_at(identities, digests, step, events[n], i));
                },
                _ => {},
            }
        }
    }
}

/// Once a file has been unlinked, the removal ends with the segment gone or with its
/// files put back; there is no third way.
pub proof fn lemma_touched_is_removed_or_restored(
    identities: Seq<FileIdentity>,
    digests: Seq<(String, String)>,
    step: RemovalStep,
    event: RemovalEvent,
)
    requires
        !is_untouched(step),
        !(step is Done),
    ensures
        ({
            let after = removal_next(identities, digests, step, event);
            &&& !is_preparing(after)
            &&& after is Done ==> (after == RemovalStep::Done(RemovalResult::Removed) && step
                == RemovalStep::RemovingDirectory) || (after == RemovalStep::Done(
                RemovalResult::Failed,
            ) && step == RemovalStep::Restoring)
        }),
{
}

/// The segment's directory is removed only after its last file was unlinked.
pub proof fn lemma_directory_goes_last(
    identities: Seq<FileIdentity>,
    digests: Seq<(String, String)>,
    step: RemovalStep,
    event: RemovalEvent,
)
    requires
        removal_next(identities, digests, step, event) == RemovalStep::RemovingDirectory,
        step != RemovalStep::RemovingDirectory,
    ensures
        step matches RemovalStep::Unlinking(i) && i + 1 >= identities.len(),
        event == RemovalEvent::Unlinked(true),
{
}

// ---------------------------------------------------------------------------
// Outcomes
// ---------------------------------------------------------------------------

/// Whether the segment counts as gone, and its ledger entry goes too.
pub fn removal_confirmed(result: RemovalResult) -> (r: bool)
    ensures
        r == (result == RemovalResult::Removed || result == RemovalResult::Absent),
{
    result == RemovalResult::Removed || result == RemovalResult::Absent
}

/// Whether this removal took the segment away.
pub fn removal_done(result: RemovalResult) -> (r: bool)
    ensures
        r == (result == RemovalResult::Removed),
{
    result == RemovalResult::Removed
}

/// What a segment's directory holds, where it is expected to hold nothing.
#[derive(Clone, Copy, Debug, PartialEq, Eq, Structural)]
pub enum Occupancy {
    Empty,
    Occupied,
    NotFound,
    Unreadable,
}

/// What keeps an empty segment from being removed.
pub open spec fn empty_fault(c: CandidateView, way: SegmentWay, held: Occupancy) -> Option<
    RemovalResult,
> {
    let first = if way.day != DirectoryState::Plain {
        way.day
    } else if way.stream != DirectoryState::Plain {
        way.stream
    } else {
        way.segment
    };
    if way.root == DirectoryState::NotFound || way.root == DirectoryState::Unreadable {
        Some(RemovalResult::Absent)
    } else if way.root == DirectoryState::NotPlain || !is_candidate(c) {
        Some(RemovalResult::Refused)
    } else if first == DirectoryState::NotFound {
        Some(RemovalResult::Absent)
    } else if first != DirectoryState::Plain {
        Some(RemovalResult::Refused)
    } else {
        match held {
            Occupancy::Empty => None,
            Occupancy::NotFound => Some(RemovalResult::Absent),
            _ => Some(RemovalResult::Refused),
        }
    }
}

/// What keeps an empty segment from being removed; nothing where it may go.
pub fn check_empty_segment(candidate: &SegmentCandidate, way: SegmentWay, held: Occupancy) -> (r:
    Option<RemovalResult>)
    ensures
        r == empty_fault(candidate@, way, held),
{
    if way.root == DirectoryState::NotFound || way.root == DirectoryState::Unreadable {
        return Some(RemovalResult::Absent);
    }
    if way.root == DirectoryState::NotPlain || !candidate_is_valid(candidate) {
        return Some(RemovalResult::Refused);
    }
    let first = if way.day != DirectoryState::Plain {
        way.day
    } else if way.stream != DirectoryState::Plain {
        way.stream
    } else {
        way.segment
    };
    match first {
        DirectoryState::NotFound => Some(RemovalResult::Absent),
        DirectoryState::Plain => match held {
            Occupancy::Empty => None,
            Occupancy::NotFound => Some(RemovalResult::Absent),
            _ => Some(RemovalResult::Refused),
        },
        _ => Some(RemovalResult::Refused),
    }
}

/// What came of removing an empty segment that may go.
pub fn conclude_empty_removal(stream_opened: bool, unlinked: bool) -> (r: RemovalResult)
    ensures
        r == if !stream_opened {
            RemovalResult::Refused
        } else if !unlinked {
            RemovalResult::Failed
        } else {
            RemovalResult::Removed
        },
{
    if !stream_opened {
        RemovalResult::Refused
    } else if !unlinked {
        RemovalResult::Failed
    } else {
        RemovalResult::Removed
    }
}

/// What stands under a file's name when it is to be put back.
#[derive(Clone, Copy, Debug, PartialEq, Eq, Structural)]
pub enum Presence {
    Present,
    Absent,
    Unknown,
}

/// How a file is put back.
#[derive(Clone, Copy, Debug, PartialEq, Eq, Structural)]
pub enum RestoreChoice {
    /// It is still there.
    Keep,
    /// Another file has its name: that one is renamed first.
    MoveAside,
    Rewrite,
    GiveUp,
}

/// How a file is put back. Another file under its name is never overwritten.
pub fn restore_choice(current_matches: bool, presence: Presence) -> (r: RestoreChoice)
    ensures
        r == if current_matches {
            RestoreChoice::Keep
        } else {
            match presence {
                Presence::Present => RestoreChoice::MoveAside,
                Presence::Absent => RestoreChoice::Rewrite,
                Presence::Unknown => RestoreChoice::GiveUp,
            }
        },
{
    if current_matches {
        return RestoreChoice::Keep;
    }
    match presence {
        Presence::Present => RestoreChoice::MoveAside,
        Presence::Absent => RestoreChoice::Rewrite,
        Presence::Unknown => RestoreChoice::GiveUp,
    }
}

/// The name that another file gets which stands in the way.
pub fn conflict_name(index: usize) -> (r: String)
    ensures
        r@ == ".retention-conflict-"@ + decimal(index as nat),
{
    concat(".retention-conflict-", decimal_text(index as u64).as_str())
}

/// Whether all files were put back.
#[derive(Debug, PartialEq, Eq, Structural)]
pub struct RestoreTally {
    pub restored: bool,
}

/// How one file fared: where it was moved aside, whether that name was free and the
/// move worked; and whether it was read and written again.
pub open spec fn file_restored(
    choice: RestoreChoice,
    aside_free: bool,
    moved: bool,
    rewritten: bool,
) -> bool {
    match choice {
        RestoreChoice::Keep => true,
        RestoreChoice::MoveAside => aside_free && moved && rewritten,
        RestoreChoice::Rewrite => rewritten,
        RestoreChoice::GiveUp => false,
    }
}

impl RestoreTally {
    pub fn new() -> (r: Self)
        ensures
            r.restored,
    {
        RestoreTally { restored: true }
    }

    /// Counts one more file in.
    pub fn record(
        &mut self,
        choice: RestoreChoice,
        aside_free: bool,
        moved: bool,
        rewritten: bool,
    )
        ensures
            final(self).restored == (old(self).restored && file_restored(
                choice,
                aside_free,
                moved,
                rewritten,
            )),
    {
        let whole = match choice {
            RestoreChoice::Keep => true,
            RestoreChoice::MoveAside => aside_free && moved && rewritten,
            RestoreChoice::Rewrite => rewritten,
            RestoreChoice::GiveUp => false,
        };
        self.restored = self.restored && whole;
    }
}

/// What a removal that cannot be undone is told.
#[derive(Clone, Copy, Debug, PartialEq, Eq, Structural)]
pub enum FenceAnswer {
    Granted,
    /// Another removal is under way.
    Wait,
    /// No more removals begin.
    Closed,
}

/// Lets one removal at a time begin, and none once it is closed.
#[derive(Debug, PartialEq, Eq, Structural)]
pub struct RetentionFence {
    pub accepting: bool,
    pub busy: bool,
}

/// What a removal that wants to begin is told.
pub open spec fn fence_answer(fence: RetentionFence) -> FenceAnswer {
    if !fence.accepting {
        FenceAnswer::Closed
    } else if fence.busy {
        FenceAnswer::Wait
    } else {
        FenceAnswer::Granted
    }
}

/// The fence after a removal wanted to begin.
pub open spec fn fence_begun(fence: RetentionFence) -> RetentionFence {
    RetentionFence {
        busy: fence.busy || fence_answer(fence) == FenceAnswer::Granted,
        ..fence
    }
}

/// The fence after the removal under way has ended.
pub open spec fn fence_finished(fence: RetentionFence) -> RetentionFence {
    RetentionFence { busy: false, ..fence }
}

/// The fence after it was closed.
pub open spec fn fence_closed(fence: RetentionFence) -> RetentionFence {
    RetentionFence { accepting: false, ..fence }
}

impl RetentionFence {
    pub fn new() -> (r: Self)
        ensures
            r == (RetentionFence { accepting: true, busy: false }),
    {
        RetentionFence { accepting: true, busy: false }
    }

    pub fn begin_irreversible(&mut self) -> (r: FenceAnswer)
        ensures
            r == fence_answer(*old(self)),
            *final(self) == fence_begun(*old(self)),
    {
        if !self.accepting {
            return FenceAnswer::Closed;
        }
        if self.busy {
            return FenceAnswer::Wait;
        }
        self.busy = true;
        FenceAnswer::Granted
    }

    /// The removal under way has ended.
    pub fn finish_irreversible(&mut self)
        ensures
            *final(self) == fence_finished(*old(self)),
    {
        self.busy = false;
    }

    /// Lets no more removals begin. The result is whether none is under way any more.
    pub fn close_and_drain(&mut self) -> (r: bool)
        ensures
            r == !old(self).busy,
            *final(self) == fence_closed(*old(self)),
    {
        self.accepting = false;
        !self.busy
    }
}

impl Default for RetentionFence {
    fn default() -> (r: Self)
        ensures
            r == (RetentionFence { accepting: true, busy: false }),
    {
        RetentionFence::new()
    }
}

/// Two removals never run at once: after one was let in, the next waits until it has
/// ended. None begins behind a closed fence, whatever ends or is asked for later.
pub proof fn lemma_fence_grants_one(fence: RetentionFence)
    ensures
        fence_answer(fence) == FenceAnswer::Granted ==> fence_answer(fence_begun(fence))
            == FenceAnswer::Wait && fence_answer(fence_finished(fence_begun(fence)))
            == FenceAnswer::Granted,
        fence_answer(fence_closed(fence)) == FenceAnswer::Closed,
        !fence.accepting ==> !fence_begun(fence).accepting && !fence_finished(fence).accepting
            && fence_answer(fence) == FenceAnswer::Closed,
{
}

// ---------------------------------------------------------------------------
// What a removal is for
// ---------------------------------------------------------------------------

/// A removal begins exactly where the segment still holds the files that were expected,
/// each of them unchanged, and there is at least one.
pub proof fn lemma_unchanged_segment_is_removed(
    names: Vec<String>,
    now: Vec<FileIdentity>,
    expected_names: Seq<String>,
    expected: Seq<FileIdentity>,
)
    ensures
        removal_start(ResolvedSegmentFiles::Found(names), Some(now), expected_names, expected)
            == RemovalStep::OpeningDirectories <==> {
            &&& expected.len() > 0
            &&& names@.len() == expected_names.len()
            &&& forall|i: int|
                0 <= i < names@.len() ==> (#[trigger] names@[i])@ == expected_names[i]@
            &&& now@.len() == expected.len()
            &&& forall|i: int| 0 <= i < now@.len() ==> (#[trigger] now@[i])@ == expected[i]@
        },
        removal_start(ResolvedSegmentFiles::Missing, Some(now), expected_names, expected)
            == RemovalStep::Done(RemovalResult::Absent),
        removal_start(ResolvedSegmentFiles::Found(names), None, expected_names, expected)
            == RemovalStep::Done(RemovalResult::Refused),
        removal_start(ResolvedSegmentFiles::Empty, Some(now), expected_names, expected)
            == RemovalStep::Done(RemovalResult::Refused),
        removal_start(ResolvedSegmentFiles::Invalid, Some(now), expected_names, expected)
            == RemovalStep::Done(RemovalResult::Refused),
        removal_start(ResolvedSegmentFiles::Found(names), Some(now), expected_names, expected)
            != RemovalStep::OpeningDirectories ==> removal_start(
            ResolvedSegmentFiles::Found(names),
            Some(now),
            expected_names,
            expected,
        ) == RemovalStep::Done(RemovalResult::Refused),
{
    let a = texts(names@);
    let b = texts(expected_names);
    let c = identity_views(now@);
    let d = identity_views(expected);
    if names@.len() == expected_names.len() && (forall|i: int|
        0 <= i < names@.len() ==> (#[trigger] names@[i])@ == expected_names[i]@) {
        assert(a =~= b);
    }
    if a == b {
        assert(a.len() == names@.len() && b.len() == expected_names.len());
        assert forall|i: int| 0 <= i < names@.len() implies (#[trigger] names@[i])@
            == expected_names[i]@ by {
            assert(a[i] == names@[i]@);
            assert(b[i] == expected_names[i]@);
        }
    }
    if now@.len() == expected.len() && (forall|i: int|
        0 <= i < now@.len() ==> (#[trigger] now@[i])@ == expected[i]@) {
        assert(c =~= d);
    }
    if c == d {
        assert(c.len() == now@.len() && d.len() == expected.len());
        assert forall|i: int| 0 <= i < now@.len() implies (#[trigger] now@[i])@ == expected[i]@ by {
            assert(c[i] == now@[i]@);
            assert(d[i] == expected[i]@);
        }
    }
}

/// A removal that finds everything as expected goes through: each file is opened, then
/// each is checked and unlinked, and then the directory goes.
pub proof fn lemma_removal_goes_through(
    identities: Seq<FileIdentity>,
    digests: Seq<(String, String)>,
    i: usize,
    digest: String,
)
    requires
        i < identities.len(),
        digest_for(digests, identities[i as int].name@) == Some(digest@),
    ensures
        ({
            let facts = Some(
                FileFacts {
                    device: identities[i as int].device,
                    inode: identities[i as int].inode,
                    size: identities[i as int].size,
                },
            );
            let last = i + 1 == identities.len();
            &&& removal_next(
                identities,
                digests,
                RemovalStep::OpeningDirectories,
                RemovalEvent::DirectoriesOpened(true),
            ) == RemovalStep::Opening(0)
            &&& removal_next(
                identities,
                digests,
                RemovalStep::Opening(i),
                RemovalEvent::FileOpened(facts),
            ) == if last {
                RemovalStep::Probing(0)
            } else {
                RemovalStep::Opening((i + 1) as usize)
            }
            &&& removal_next(
                identities,
                digests,
                RemovalStep::Probing(i),
                RemovalEvent::Probed { facts, digest: Some(digest) },
            ) == RemovalStep::Unlinking(i)
            &&& removal_next(
                identities,
                digests,
                RemovalStep::Unlinking(i),
                RemovalEvent::Unlinked(true),
            ) == if last {
                RemovalStep::RemovingDirectory
            } else {
                RemovalStep::Probing((i + 1) as usize)
            }
            &&& removal_next(
                identities,
                digests,
                RemovalStep::RemovingDirectory,
                RemovalEvent::DirectoryRemoved(true),
            ) == RemovalStep::Done(RemovalResult::Removed)
        }),
{
}

/// A file that is not the expected one ends a removal: before anything is unlinked the
/// segment is refused, and later what was unlinked is put back.
pub proof fn lemma_other_file_ends_removal(
    identities: Seq<FileIdentity>,
    digests: Seq<(String, String)>,
    i: usize,
    facts: Option<FileFacts>,
    digest: Option<String>,
)
    requires
        i < identities.len(),
    ensures
        ({
            let other = facts is None || facts->0.device != identities[i as int].device
                || facts->0.inode != identities[i as int].inode || facts->0.size
                != identities[i as int].size;
            &&& other ==> removal_next(
                identities,
                digests,
                RemovalStep::Opening(i),
                RemovalEvent::FileOpened(facts),
            ) == RemovalStep::Done(RemovalResult::Refused)
            &&& other || digest is None || digest_for(digests, identities[i as int].name@) != Some(
                digest->0@,
            ) ==> removal_next(
                identities,
                digests,
                RemovalStep::Probing(i),
                RemovalEvent::Probed { facts, digest },
            ) == RemovalStep::Restoring
        }),
        removal_next(
            identities,
            digests,
            RemovalStep::OpeningDirectories,
            RemovalEvent::DirectoriesOpened(false),
        ) == RemovalStep::Done(RemovalResult::Refused),
        removal_next(
            identities,
            digests,
            RemovalStep::Unlinking(i),
            RemovalEvent::Unlinked(false),
        ) == RemovalStep::Restoring,
        removal_next(
            identities,
            digests,
            RemovalStep::RemovingDirectory,
            RemovalEvent::DirectoryRemoved(false),
        ) == RemovalStep::Restoring,
        removal_next(identities, digests, RemovalStep::Restoring, RemovalEvent::Restored)
            == RemovalStep::Done(RemovalResult::Failed),
{
}

/// An observer hears of the files when the last of them is unlinked, and of the
/// directory when the segment is gone; of nothing else.
pub proof fn lemma_stages_are_told(
    identities: Seq<FileIdentity>,
    digests: Seq<(String, String)>,
    step: RemovalStep,
    event: RemovalEvent,
)
    ensures
        ({
            let after = removal_next(identities, digests, step, event);
            &&& stage_reached(step, after) == Some(SegmentRemovalStage::FilesUnlinked) <==> step
                is Unlinking && step->Unlinking_0 + 1 >= identities.len() && event
                == RemovalEvent::Unlinked(true)
            &&& stage_reached(step, after) == Some(SegmentRemovalStage::DirectoryUnlinked) <==> step
                == RemovalStep::RemovingDirectory && event == RemovalEvent::DirectoryRemoved(true)
        }),
{
}

/// A segment counts as gone where it was removed or was not there; only the first is
/// this removal's doing.
pub proof fn lemma_what_counts_as_gone(result: RemovalResult, confirmed: bool, done: bool)
    requires
        call_ensures(removal_confirmed, (result,), confirmed),
        call_ensures(removal_done, (result,), done),
    ensures
        done ==> confirmed,
        confirmed && !done <==> result == RemovalResult::Absent,
        result == RemovalResult::Refused || result == RemovalResult::Failed ==> !confirmed,
        result == RemovalResult::Removed ==> done,
{
}

/// An empty segment may go exactly where it is a segment, every directory on the way to
/// it is a plain one, and it holds nothing. One that is not there is absent, and anything
/// else is left.
pub proof fn lemma_only_empty_segments_go(c: CandidateView, way: SegmentWay, held: Occupancy)
    ensures
        empty_fault(c, way, held) is None <==> is_candidate(c) && way.root == DirectoryState::Plain
            && way.day == DirectoryState::Plain && way.stream == DirectoryState::Plain && way.segment
            == DirectoryState::Plain && held == Occupancy::Empty,
        empty_fault(c, way, held) is Some ==> empty_fault(c, way, held)->0 == RemovalResult::Absent
            || empty_fault(c, way, held)->0 == RemovalResult::Refused,
        held == Occupancy::Occupied || held == Occupancy::Unreadable ==> empty_fault(c, way, held)
            is Some,
        is_candidate(c) && way.root == DirectoryState::Plain && way.day == DirectoryState::NotFound
            ==> empty_fault(c, way, held) == Some(RemovalResult::Absent),
        is_candidate(c) && way.root == DirectoryState::Plain && way.day == DirectoryState::Plain
            && way.stream == DirectoryState::NotFound ==> empty_fault(c, way, held) == Some(
            RemovalResult::Absent,
        ),
        is_candidate(c) && way.root == DirectoryState::Plain && way.day == DirectoryState::Plain
            && way.stream == DirectoryState::Plain && way.segment == DirectoryState::NotFound
            ==> empty_fault(c, way, held) == Some(RemovalResult::Absent),
        !is_candidate(c) && way.root == DirectoryState::Plain ==> empty_fault(c, way, held) == Some(
            RemovalResult::Refused,
        ),
{
}

/// An empty segment is reported as removed only where its directory was unlinked.
pub proof fn lemma_empty_removal_is_honest(stream_opened: bool, unlinked: bool, r: RemovalResult)
    requires
        call_ensures(conclude_empty_removal, (stream_opened, unlinked), r),
    ensures
        r == RemovalResult::Removed <==> stream_opened && unlinked,
        r == RemovalResult::Refused <==> !stream_opened,
        r == RemovalResult::Failed <==> stream_opened && !unlinked,
{
}

/// A file that is put back never takes the place of another: it is written only where
/// its name is known to be free, another file under its name is moved aside, and one that
/// is still there is left.
pub proof fn lemma_nothing_is_overwritten(current_matches: bool, presence: Presence, r: RestoreChoice)
    requires
        call_ensures(restore_choice, (current_matches, presence), r),
    ensures
        r == RestoreChoice::Keep <==> current_matches,
        r == RestoreChoice::Rewrite <==> !current_matches && presence == Presence::Absent,
        r == RestoreChoice::MoveAside <==> !current_matches && presence == Presence::Present,
        r == RestoreChoice::GiveUp <==> !current_matches && presence == Presence::Unknown,
{
}

/// A file counts as put back where it never left, or was written again and nothing that
/// stood in its way was lost.
pub proof fn lemma_what_counts_as_put_back(
    choice: RestoreChoice,
    aside_free: bool,
    moved: bool,
    rewritten: bool,
)
    ensures
        file_restored(choice, aside_free, moved, rewritten) ==> choice == RestoreChoice::Keep
            || rewritten,
        choice == RestoreChoice::MoveAside && file_restored(choice, aside_free, moved, rewritten)
            <==> choice == RestoreChoice::MoveAside && aside_free && moved && rewritten,
        choice == RestoreChoice::Rewrite ==> file_restored(choice, aside_free, moved, rewritten)
            == rewritten,
        choice == RestoreChoice::Keep ==> file_restored(choice, aside_free, moved, rewritten),
        choice == RestoreChoice::GiveUp ==> !file_restored(choice, aside_free, moved, rewritten),
{
}

/// The digest that a file must have is the last one under its name, and there is one
/// exactly where its name occurs.
pub proof fn lemma_last_digest_counts(digests: Seq<(String, String)>, name: Seq<char>)
    ensures
        digest_for(digests, name) is None <==> forall|i: int|
            0 <= i < digests.len() ==> (#[trigger] digests[i]).0@ != name,
        digest_for(digests, name) is Some ==> exists|i: int|
            0 <= i < digests.len() && (#[trigger] digests[i]).0@ == name && digests[i].1@
                == digest_for(digests, name)->0 && forall|j: int|
                i < j < digests.len() ==> (#[trigger] digests[j]).0@ != name,
    decreases digests.len(),
{
    if digests.len() > 0 {
        let shorter = digests.drop_last();
        let n = digests.len() - 1;
        lemma_last_digest_counts(shorter, name);
        if digests.last().0@ == name {
            assert(digests[n].0@ == name);
        } else {
            if digest_for(shorter, name) is Some {
                let i = choose|i: int|
                    0 <= i < shorter.len() && (#[trigger] shorter[i]).0@ == name && shorter[i].1@
                        == digest_for(shorter, name)->0 && forall|j: int|
                        i < j < shorter.len() ==> (#[trigger] shorter[j]).0@ != name;
                assert(digests[i] == shorter[i]);
                assert forall|j: int| i < j < digests.len() implies (#[trigger] digests[j]).0@
                    != name by {
                    if j < n {
                        assert(shorter[j] == digests[j]);
                    }
                }
            } else {
                assert forall|i: int| 0 <= i < digests.len() implies (#[trigger] digests[i]).0@
                    != name by {
                    if i < n {
                        assert(shorter[i] == digests[i]);
                    }
                }
            }
        }
    }
}

} // verus!
