//! Publish status of the crates of a workspace: what is known of each
//! crate, what should be done with it, a cache of earlier answers, and the
//! report in text form.
//!
//! Nothing here reads a clock, a disk or a network: the caller hands in what
//! it found there.

use vstd::prelude::*;
use vstd::string::*;
use crate::text::{decimal, decimal_text, join_spaced, joined, pad_end, pad_start, padded_end, padded_start, repeat_text, repeated, same_text, texts};

verus! {

/// Seconds after which the registry version of a cache entry is stale.
pub const REGISTRY_TTL_SECS: u64 = 900;

/// Width of the rules of the text report, in repetitions of the rule mark.
pub const RULE_WIDTH: usize = 65;

/// What to do with a crate.
#[derive(Debug, Clone, Copy, PartialEq, Eq, Structural)]
pub enum PublishAction {
    /// Published and up to date.
    UpToDate,
    /// Uncommitted changes come first.
    NeedsCommit,
    /// Committed but not published.
    NeedsPublish,
    /// The local version is behind the registry.
    LocalBehind,
    /// Not in the registry yet.
    NotPublished,
    /// The status could not be determined.
    Error,
}

impl PublishAction {
    /// The mark of an action, as a sequence of characters.
    pub open spec fn symbol_text(self) -> Seq<char> {
        match self {
            PublishAction::UpToDate => "‚úì"@,
            PublishAction::NeedsCommit => "üìù"@,
            PublishAction::NeedsPublish => "üì¶"@,
            PublishAction::LocalBehind => "‚ö†Ô∏è"@,
            PublishAction::NotPublished => "üÜï"@,
            PublishAction::Error => "‚ùå"@,
        }
    }

    /// The description of an action, as a sequence of characters.
    pub open spec fn description_text(self) -> Seq<char> {
        match self {
            PublishAction::UpToDate => "up to date"@,
            PublishAction::NeedsCommit => "commit changes"@,
            PublishAction::NeedsPublish => "PUBLISH"@,
            PublishAction::LocalBehind => "local behind"@,
            PublishAction::NotPublished => "not published"@,
            PublishAction::Error => "error"@,
        }
    }

    /// Mark shown for the action.
    #[must_use]
    pub fn symbol(&self) -> (text: &'static str)
        ensures
            text@ == self.symbol_text(),
    {
        match self {
            PublishAction::UpToDate => "‚úì",
            PublishAction::NeedsCommit => "üìù",
            PublishAction::NeedsPublish => "üì¶",
            PublishAction::LocalBehind => "‚ö†Ô∏è",
            PublishAction::NotPublished => "üÜï",
            PublishAction::Error => "‚ùå",
        }
    }

    /// Short description of the action.
    #[must_use]
    pub fn description(&self) -> (text: &'static str)
        ensures
            text@ == self.description_text(),
    {
        match self {
            PublishAction::UpToDate => "up to date",
            PublishAction::NeedsCommit => "commit changes",
            PublishAction::NeedsPublish => "PUBLISH",
            PublishAction::LocalBehind => "local behind",
            PublishAction::NotPublished => "not published",
            PublishAction::Error => "error",
        }
    }
}

/// Summary of the working tree of a repository.
#[derive(Debug, Clone, PartialEq, Eq)]
pub struct GitStatus {
    /// Number of modified files.
    pub modified: usize,
    /// Number of untracked files.
    pub untracked: usize,
    /// Number of staged files.
    pub staged: usize,
    /// Short hash of the current commit.
    pub head_sha: String,
    /// Whether nothing has changed.
    pub is_clean: bool,
}

impl Default for GitStatus {
    /// No changes counted, no commit, and not marked clean.
    fn default() -> (status: Self)
        ensures
            status.modified == 0,
            status.untracked == 0,
            status.staged == 0,
            status.head_sha@.len() == 0,
            !status.is_clean,
    {
        GitStatus { modified: 0, untracked: 0, staged: 0, head_sha: String::new(), is_clean: false }
    }
}

/// A count with its mark, or nothing for a count of zero.
pub open spec fn count_part(count: nat, mark: Seq<char>) -> Seq<Seq<char>> {
    if count > 0 {
        seq![decimal_text(count) + mark]
    } else {
        Seq::empty()
    }
}

impl GitStatus {
    /// The summary of a status: `clean`, or the counts that are not zero,
    /// modified (`M`), untracked (`?`) and staged (`+`), separated by spaces.
    pub open spec fn summary_text(self) -> Seq<char> {
        if self.is_clean {
            "clean"@
        } else {
            joined(
                count_part(self.modified as nat, "M"@) + count_part(self.untracked as nat, "?"@) + count_part(
                    self.staged as nat,
                    "+"@,
                ),
            )
        }
    }

    /// The number of changed files.
    #[must_use]
    pub fn total_changes(&self) -> (total: usize)
        requires
            self.modified + self.untracked + self.staged <= usize::MAX,
        ensures
            total == self.modified + self.untracked + self.staged,
    {
        self.modified + self.untracked + self.staged
    }

    /// The status in a few characters.
    #[must_use]
    pub fn summary(&self) -> (text: String)
        ensures
            text@ == self.summary_text(),
    {
        if self.is_clean {
            String::from_str("clean")
        } else {
            let mut parts: Vec<String> = Vec::new();
            assert(texts(parts@) =~= Seq::<Seq<char>>::empty());
            if self.modified > 0 {
                let mut part = decimal(self.modified as u64);
                part.append("M");
                parts.push(part);
            }
            assert(texts(parts@) =~= count_part(self.modified as nat, "M"@));
            if self.untracked > 0 {
                let mut part = decimal(self.untracked as u64);
                part.append("?");
                parts.push(part);
            }
            assert(texts(parts@) =~= count_part(self.modified as nat, "M"@) + count_part(
                self.untracked as nat,
                "?"@,
            ));
            if self.staged > 0 {
                let mut part = decimal(self.staged as u64);
                part.append("+");
                parts.push(part);
            }
            assert(texts(parts@) =~= count_part(self.modified as nat, "M"@) + count_part(
                self.untracked as nat,
                "?"@,
            ) + count_part(self.staged as nat, "+"@));
            join_spaced(&parts)
        }
    }
}

/// What is known of one crate.
#[derive(Debug, Clone)]
pub struct CrateStatus {
    /// Name of the crate.
    pub name: String,
    /// Version in the local manifest.
    pub local_version: Option<String>,
    /// Version in the registry.
    pub crates_io_version: Option<String>,
    /// State of the working tree.
    pub git_status: GitStatus,
    /// What to do.
    pub action: PublishAction,
    /// Path of the repository.
    pub path: String,
    /// Error message, if the status could not be read.
    pub error: Option<String>,
}

/// A cached status.
#[derive(Debug, Clone)]
pub struct CacheEntry {
    /// Key of the state of the repository for which the status holds.
    pub cache_key: String,
    /// The status.
    pub status: CrateStatus,
    /// When the registry was asked, in seconds since the epoch.
    pub crates_io_checked_at: u64,
    /// When the entry was made, in seconds since the epoch.
    pub created_at: u64,
}

impl CacheEntry {
    /// Whether the registry was asked more than 15 minutes before `now`.
    pub open spec fn stale_at(self, now: u64) -> bool {
        now - self.crates_io_checked_at > REGISTRY_TTL_SECS
    }

    /// Whether the registry version is stale at the time `now`, in seconds
    /// since the epoch.
    #[must_use]
    pub fn is_crates_io_stale(&self, now: u64) -> (stale: bool)
        requires
            self.crates_io_checked_at <= now,
        ensures
            stale == self.stale_at(now),
    {
        now - self.crates_io_checked_at > REGISTRY_TTL_SECS
    }
}

/// The number of statuses whose action is `action`.
pub open spec fn count_action(crates: Seq<CrateStatus>, action: PublishAction) -> nat
    decreases crates.len(),
{
    if crates.len() == 0 {
        0
    } else {
        count_action(crates.drop_last(), action) + if crates.last().action == action {
            1nat
        } else {
            0nat
        }
    }
}

/// No more statuses have an action than there are statuses.
pub proof fn lemma_count_action_bound(crates: Seq<CrateStatus>, action: PublishAction)
    ensures
        count_action(crates, action) <= crates.len(),
    decreases crates.len(),
{
    if crates.len() > 0 {
        lemma_count_action_bound(crates.drop_last(), action);
    }
}

/// The publish status of a workspace.
#[derive(Debug, Clone)]
pub struct PublishStatusReport {
    /// The status of each crate.
    pub crates: Vec<CrateStatus>,
    /// Number of crates.
    pub total: usize,
    /// Number of crates to publish.
    pub needs_publish: usize,
    /// Number of crates to commit.
    pub needs_commit: usize,
    /// Number of crates up to date.
    pub up_to_date: usize,
    /// Number of answers taken from the cache.
    pub cache_hits: usize,
    /// Number of answers that had to be refreshed.
    pub cache_misses: usize,
    /// Time taken, in milliseconds.
    pub elapsed_ms: u64,
}

impl PublishStatusReport {
    /// Whether the counts of the report are those of its statuses.
    pub open spec fn counts_match(self) -> bool {
        &&& self.total == self.crates@.len()
        &&& self.needs_publish == count_action(self.crates@, PublishAction::NeedsPublish)
        &&& self.needs_commit == count_action(self.crates@, PublishAction::NeedsCommit)
        &&& self.up_to_date == count_action(self.crates@, PublishAction::UpToDate)
        &&& self.cache_hits + self.cache_misses == self.total
    }

    /// The report of the given statuses.
    #[must_use]
    pub fn from_statuses(crates: Vec<CrateStatus>, cache_hits: usize, elapsed_ms: u64) -> (report: Self)
        requires
            cache_hits <= crates@.len(),
        ensures
            report.crates == crates,
            report.cache_hits == cache_hits,
            report.elapsed_ms == elapsed_ms,
            report.counts_match(),
    {
        let total: usize = crates.len();
        let mut needs_publish: usize = 0;
        let mut needs_commit: usize = 0;
        let mut up_to_date: usize = 0;
        let mut i: usize = 0;
        assert(crates@.take(0) =~= Seq::<CrateStatus>::empty());
        while i < total
            invariant
                i <= total,
                total == crates@.len(),
                needs_publish == count_action(crates@.take(i as int), PublishAction::NeedsPublish),
                needs_commit == count_action(crates@.take(i as int), PublishAction::NeedsCommit),
                up_to_date == count_action(crates@.take(i as int), PublishAction::UpToDate),
                needs_publish <= i,
                needs_commit <= i,
                up_to_date <= i,
            decreases total - i,
        {
            assert(crates@.take(i + 1).drop_last() =~= crates@.take(i as int));
            match crates[i].action {
                PublishAction::NeedsPublish => {
                    needs_publish += 1;
                },
                PublishAction::NeedsCommit => {
                    needs_commit += 1;
                },
                PublishAction::UpToDate => {
                    up_to_date += 1;
                },
                _ => {},
            }
            i += 1;
        }
        assert(crates@.take(total as int) =~= crates@);
        PublishStatusReport {
            crates,
            total,
            needs_publish,
            needs_commit,
            up_to_date,
            cache_hits,
            cache_misses: total - cache_hits,
            elapsed_ms,
        }
    }
}

/// One slot of the cache: the entry kept for a crate.
#[derive(Debug, Clone)]
pub struct CacheSlot {
    /// Name of the crate.
    pub name: String,
    /// Its entry.
    pub entry: CacheEntry,
}

/// The first position in `slots` of the slot of crate `name`.
pub open spec fn find_slot(slots: Seq<CacheSlot>, name: Seq<char>) -> Option<int>
    decreases slots.len(),
{
    if slots.len() == 0 {
        None
    } else {
        match find_slot(slots.drop_last(), name) {
            Some(i) => Some(i),
            None => if slots.last().name@ == name {
                Some(slots.len() - 1)
            } else {
                None
            },
        }
    }
}

/// Whether no two slots are for the same crate.
pub open spec fn slots_distinct(slots: Seq<CacheSlot>) -> bool {
    forall|i: int, j: int| 0 <= i < slots.len() && 0 <= j < slots.len() && i != j ==> slots[i].name@ != slots[j].name@
}

/// What [`find_slot`] finds is the first slot of that crate, and it finds
/// none only where there is none.
pub proof fn lemma_find_slot(slots: Seq<CacheSlot>, name: Seq<char>)
    ensures
        match find_slot(slots, name) {
            Some(i) => 0 <= i < slots.len() && slots[i].name@ == name && forall|j: int|
                0 <= j < i ==> slots[j].name@ != name,
            None => forall|j: int| 0 <= j < slots.len() ==> slots[j].name@ != name,
        },
    decreases slots.len(),
{
    if slots.len() > 0 {
        let front = slots.drop_last();
        lemma_find_slot(front, name);
        assert(forall|j: int| 0 <= j < front.len() ==> front[j] == slots[j]);
    }
}

/// A slot found in a prefix of `slots` is the one found in `slots`.
pub proof fn lemma_find_slot_prefix(slots: Seq<CacheSlot>, name: Seq<char>, k: int)
    requires
        0 <= k <= slots.len(),
        find_slot(slots.take(k), name) is Some,
    ensures
        find_slot(slots, name) == find_slot(slots.take(k), name),
    decreases slots.len() - k,
{
    if k < slots.len() {
        assert(slots.take(k + 1).drop_last() =~= slots.take(k));
        lemma_find_slot_prefix(slots, name, k + 1);
    } else {
        assert(slots.take(k) =~= slots);
    }
}

/// The position of the slot of crate `name`.
pub fn slot_of(slots: &Vec<CacheSlot>, name: &str) -> (found: Option<usize>)
    ensures
        match found {
            Some(i) => find_slot(slots@, name@) == Some(i as int),
            None => find_slot(slots@, name@) is None,
        },
{
    let mut i: usize = 0;
    assert(slots@.take(0) =~= Seq::<CacheSlot>::empty());
    while i < slots.len()
        invariant
            i <= slots@.len(),
            find_slot(slots@.take(i as int), name@) is None,
        decreases slots@.len() - i,
    {
        let same = same_text(slots[i].name.as_str(), name);
        proof {
            assert(slots@.take(i + 1).drop_last() =~= slots@.take(i as int));
            if same {
                lemma_find_slot_prefix(slots@, name@, i + 1);
            }
        }
        if same {
            return Some(i);
        }
        i += 1;
    }
    assert(slots@.take(i as int) =~= slots@);
    None
}

/// Cache of statuses, one entry for each crate.
#[derive(Debug)]
pub struct PublishStatusCache {
    entries: Vec<CacheSlot>,
}

impl PublishStatusCache {
    /// The slots, in the order in which their crates were first inserted.
    pub closed spec fn slots(&self) -> Seq<CacheSlot> {
        self.entries@
    }

    /// No two slots are for the same crate.
    #[verifier::type_invariant]
    pub closed spec fn well_formed(&self) -> bool {
        slots_distinct(self.entries@)
    }

    /// The entry that a lookup of `name` with `cache_key` answers: the entry
    /// of that crate, if its key is `cache_key`.
    pub open spec fn valid_entry(slots: Seq<CacheSlot>, name: Seq<char>, cache_key: Seq<char>) -> Option<CacheEntry> {
        match find_slot(slots, name) {
            Some(i) => if slots[i].entry.cache_key@ == cache_key {
                Some(slots[i].entry)
            } else {
                None
            },
            None => None,
        }
    }

    /// An empty cache.
    pub fn new() -> (cache: Self)
        ensures
            cache.slots().len() == 0,
    {
        PublishStatusCache { entries: Vec::new() }
    }

    /// The entry of crate `name`, if it was made for the state `cache_key`.
    /// An entry made for another state is not handed out.
    #[must_use]
    pub fn get(&self, name: &str, cache_key: &str) -> (found: Option<&CacheEntry>)
        ensures
            match found {
                Some(entry) => Self::valid_entry(self.slots(), name@, cache_key@) == Some(*entry),
                None => Self::valid_entry(self.slots(), name@, cache_key@) is None,
            },
    {
        proof {
            lemma_find_slot(self.entries@, name@);
        }
        match slot_of(&self.entries, name) {
            Some(i) => {
                if same_text(self.entries[i].entry.cache_key.as_str(), cache_key) {
                    Some(&self.entries[i].entry)
                } else {
                    None
                }
            },
            None => None,
        }
    }

    /// Sets the entry of crate `name`, replacing an earlier one.
    pub fn insert(&mut self, name: String, entry: CacheEntry)
        ensures
            match find_slot(old(self).slots(), name@) {
                Some(i) => final(self).slots() == old(self).slots().update(i, CacheSlot { name, entry }),
                None => final(self).slots() == old(self).slots().push(CacheSlot { name, entry }),
            },
    {
        proof {
            use_type_invariant(&*self);
            lemma_find_slot(self.entries@, name@);
        }
        let found = slot_of(&self.entries, name.as_str());
        let mut entries: Vec<CacheSlot> = Vec::new();
        std::mem::swap(&mut entries, &mut self.entries);
        match found {
            Some(i) => {
                entries[i] = CacheSlot { name, entry };
            },
            None => {
                entries.push(CacheSlot { name, entry });
            },
        }
        self.entries = entries;
    }

    /// Removes every entry.
    pub fn clear(&mut self)
        ensures
            final(self).slots().len() == 0,
    {
        self.entries = Vec::new();
    }

    /// All slots; no two are for the same crate.
    pub fn entries(&self) -> (all: &Vec<CacheSlot>)
        ensures
            all@ == self.slots(),
            slots_distinct(all@),
    {
        proof {
            use_type_invariant(self);
        }
        &self.entries
    }
}

impl Default for PublishStatusCache {
    fn default() -> (cache: Self)
        ensures
            cache.slots().len() == 0,
    {
        PublishStatusCache::new()
    }
}

/// After an insert, a lookup with the inserted key finds the inserted entry,
/// and a lookup with any other key finds nothing.
pub proof fn lemma_insert_then_get(slots: Seq<CacheSlot>, name: String, entry: CacheEntry, other_key: Seq<char>)
    requires
        slots_distinct(slots),
    ensures
        ({
            let after = match find_slot(slots, name@) {
                Some(i) => slots.update(i, CacheSlot { name, entry }),
                None => slots.push(CacheSlot { name, entry }),
            };
            &&& slots_distinct(after)
            &&& PublishStatusCache::valid_entry(after, name@, entry.cache_key@) == Some(entry)
            &&& other_key != entry.cache_key@ ==> PublishStatusCache::valid_entry(after, name@, other_key) is None
        }),
{
    let slot = CacheSlot { name, entry };
    let after = match find_slot(slots, name@) {
        Some(i) => slots.update(i, slot),
        None => slots.push(slot),
    };
    lemma_find_slot(slots, name@);
    lemma_find_slot(after, name@);
    match find_slot(slots, name@) {
        Some(i) => {
            assert(after[i].name@ == name@);
        },
        None => {
            assert(after[slots.len() as int].name@ == name@);
        },
    }
}

/// How a local version stands to the version in the registry.
#[derive(Debug, Clone, Copy, PartialEq, Eq, Structural)]
pub enum VersionOrder {
    /// The local version is lower.
    Older,
    /// The two are the same version.
    Same,
    /// The local version is higher.
    Newer,
}

/// How the semantic versions written as `local` and `remote` stand to each
/// other, or `None` where one of the two is no semantic version.
pub uninterp spec fn version_order(local: Seq<char>, remote: Seq<char>) -> Option<VersionOrder>;

/// Parses both texts with `semver::Version::parse` and compares the two
/// versions with the total order of `semver::Version`, which goes by major,
/// minor, patch, pre-release and, last, build metadata. The contract only
/// names the outcome: it is a function of the two texts.
#[verifier::external_body]
fn compare_versions(local: &str, remote: &str) -> (order: Option<VersionOrder>)
    ensures
        order == version_order(local@, remote@),
{
    match (semver::Version::parse(local), semver::Version::parse(remote)) {
        (Ok(l), Ok(r)) => Some(
            match l.cmp(&r) {
                std::cmp::Ordering::Less => VersionOrder::Older,
                std::cmp::Ordering::Equal => VersionOrder::Same,
                std::cmp::Ordering::Greater => VersionOrder::Newer,
            },
        ),
        _ => None,
    }
}

/// The action for a clean crate whose two versions differ as texts: publish
/// when the local one is higher, report it behind when it is lower, and
/// treat it as up to date when they are the same version or cannot be
/// compared.
pub open spec fn action_of_order(order: Option<VersionOrder>) -> PublishAction {
    match order {
        Some(VersionOrder::Newer) => PublishAction::NeedsPublish,
        Some(VersionOrder::Older) => PublishAction::LocalBehind,
        _ => PublishAction::UpToDate,
    }
}

/// The action for a crate: an error without a local version; a commit when
/// the working tree is not clean; not published without a registry version;
/// up to date when the two versions are the same text; else by their order.
pub open spec fn action_of(
    local: Option<Seq<char>>,
    remote: Option<Seq<char>>,
    is_clean: bool,
    order: Option<VersionOrder>,
) -> PublishAction {
    match (local, remote) {
        (None, _) => PublishAction::Error,
        (Some(_), None) => if is_clean {
            PublishAction::NotPublished
        } else {
            PublishAction::NeedsCommit
        },
        (Some(l), Some(r)) => if !is_clean {
            PublishAction::NeedsCommit
        } else if l == r {
            PublishAction::UpToDate
        } else {
            action_of_order(order)
        },
    }
}

/// The text of an optional string.
pub open spec fn opt_text(text: Option<&str>) -> Option<Seq<char>> {
    match text {
        Some(t) => Some(t@),
        None => None,
    }
}

/// The action that follows from how two differing versions stand to each
/// other.
pub fn action_from_order(order: Option<VersionOrder>) -> (action: PublishAction)
    ensures
        action == action_of_order(order),
{
    match order {
        Some(VersionOrder::Newer) => PublishAction::NeedsPublish,
        Some(VersionOrder::Older) => PublishAction::LocalBehind,
        _ => PublishAction::UpToDate,
    }
}

/// Decides what to do with a crate from its local version, its version in
/// the registry and the state of its working tree.
pub fn determine_action(local: Option<&str>, crates_io: Option<&str>, git_status: &GitStatus) -> (action:
    PublishAction)
    ensures
        action == action_of(
            opt_text(local),
            opt_text(crates_io),
            git_status.is_clean,
            match (local, crates_io) {
                (Some(l), Some(r)) => version_order(l@, r@),
                _ => None,
            },
        ),
{
    match local {
        None => PublishAction::Error,
        Some(l) => match crates_io {
            None => {
                if git_status.is_clean {
                    PublishAction::NotPublished
                } else {
                    PublishAction::NeedsCommit
                }
            },
            Some(r) => {
                if !git_status.is_clean {
                    PublishAction::NeedsCommit
                } else if same_text(l, r) {
                    PublishAction::UpToDate
                } else {
                    action_from_order(compare_versions(l, r))
                }
            },
        },
    }
}

/// The text of an optional version, `-` for none.
pub open spec fn version_cell(version: Option<String>) -> Seq<char> {
    match version {
        Some(v) => v@,
        None => "-"@,
    }
}

/// The line of the report for one crate.
pub open spec fn row_text(status: CrateStatus) -> Seq<char> {
    padded_end(status.name@, 20) + " "@ + padded_start(version_cell(status.local_version), 10) + " "@ + padded_start(
        version_cell(status.crates_io_version),
        10,
    ) + " "@ + padded_start(status.git_status.summary_text(), 10) + " "@ + padded_start(
        status.action.symbol_text(),
        2,
    ) + " "@ + padded_start(status.action.description_text(), 9) + "\n"@
}

/// The lines of the report for `crates`, in order.
pub open spec fn rows_text(crates: Seq<CrateStatus>) -> Seq<char>
    decreases crates.len(),
{
    if crates.len() == 0 {
        Seq::empty()
    } else {
        rows_text(crates.drop_last()) + row_text(crates.last())
    }
}

/// The head of the report: the column titles.
pub open spec fn header_text() -> Seq<char> {
    padded_end("Crate"@, 20) + " "@ + padded_start("Local"@, 10) + " "@ + padded_start("crates.io"@, 10) + " "@
        + padded_start("Git"@, 10) + " "@ + padded_start("Action"@, 12) + "\n"@
}

/// A rule across the report.
pub open spec fn rule_text() -> Seq<char> {
    repeated("‚îÄ"@, RULE_WIDTH as nat) + "\n"@
}

/// The two closing lines of the report: the counts, then time and cache use.
pub open spec fn footer_text(report: PublishStatusReport) -> Seq<char> {
    "\n"@ + "üìä "@ + decimal_text(report.total as nat) + " crates: "@ + decimal_text(
        report.needs_publish as nat,
    ) + " publish, "@ + decimal_text(report.needs_commit as nat) + " commit, "@ + decimal_text(
        report.up_to_date as nat,
    ) + " up-to-date"@ + "\n"@ + "‚ö° "@ + decimal_text(report.elapsed_ms as nat) + "ms (cache: "@
        + decimal_text(report.cache_hits as nat) + " hits, "@ + decimal_text(report.cache_misses as nat)
        + " misses)"@ + "\n"@
}

/// The report as a table: titles, a rule, one line for each crate, a rule,
/// an empty line and the two closing lines.
pub open spec fn report_text(report: PublishStatusReport) -> Seq<char> {
    header_text() + rule_text() + rows_text(report.crates@) + rule_text() + footer_text(report)
}

/// Writes the line of one crate.
pub fn format_row(status: &CrateStatus) -> (line: String)
    ensures
        line@ == row_text(*status),
{
    let mut line = pad_end(status.name.as_str(), 20);
    line.append(" ");
    let local = match &status.local_version {
        Some(v) => pad_start(v.as_str(), 10),
        None => pad_start("-", 10),
    };
    line.append(local.as_str());
    line.append(" ");
    let remote = match &status.crates_io_version {
        Some(v) => pad_start(v.as_str(), 10),
        None => pad_start("-", 10),
    };
    line.append(remote.as_str());
    line.append(" ");
    let git = status.git_status.summary();
    let git_cell = pad_start(git.as_str(), 10);
    line.append(git_cell.as_str());
    line.append(" ");
    let mark = pad_start(status.action.symbol(), 2);
    line.append(mark.as_str());
    line.append(" ");
    let what = pad_start(status.action.description(), 9);
    line.append(what.as_str());
    line.append("\n");
    line
}

fn header_line() -> (out: String)
    ensures
        out@ == header_text(),
{
    let mut out = pad_end("Crate", 20);
    out.append(" ");
    out.append(pad_start("Local", 10).as_str());
    out.append(" ");
    out.append(pad_start("crates.io", 10).as_str());
    out.append(" ");
    out.append(pad_start("Git", 10).as_str());
    out.append(" ");
    out.append(pad_start("Action", 12).as_str());
    out.append("\n");
    out
}

fn rule_line() -> (out: String)
    ensures
        out@ == rule_text(),
{
    let mut out = repeat_text("‚îÄ", RULE_WIDTH);
    out.append("\n");
    out
}

fn rows_block(crates: &Vec<CrateStatus>) -> (out: String)
    ensures
        out@ == rows_text(crates@),
{
    let mut out = String::new();
    let mut i: usize = 0;
    assert(crates@.take(0) =~= Seq::<CrateStatus>::empty());
    while i < crates.len()
        invariant
            i <= crates@.len(),
            out@ == rows_text(crates@.take(i as int)),
        decreases crates@.len() - i,
    {
        assert(crates@.take(i + 1).drop_last() =~= crates@.take(i as int));
        out.append(format_row(&crates[i]).as_str());
        i += 1;
    }
    assert(crates@.take(i as int) =~= crates@);
    out
}

fn footer_block(report: &PublishStatusReport) -> (out: String)
    ensures
        out@ == footer_text(*report),
{
    let mut out = String::from_str("\n");
    out.append("üìä ");
    out.append(decimal(report.total as u64).as_str());
    out.append(" crates: ");
    out.append(decimal(report.needs_publish as u64).as_str());
    out.append(" publish, ");
    out.append(decimal(report.needs_commit as u64).as_str());
    out.append(" commit, ");
    out.append(decimal(report.up_to_date as u64).as_str());
    out.append(" up-to-date");
    out.append("\n");
    out.append("‚ö° ");
    out.append(decimal(report.elapsed_ms).as_str());
    out.append("ms (cache: ");
    out.append(decimal(report.cache_hits as u64).as_str());
    out.append(" hits, ");
    out.append(decimal(report.cache_misses as u64).as_str());
    out.append(" misses)");
    out.append("\n");
    out
}

/// Formats the report as a text table.
pub fn format_report_text(report: &PublishStatusReport) -> (out: String)
    ensures
        out@ == report_text(*report),
{
    let mut out = header_line();
    out.append(rule_line().as_str());
    out.append(rows_block(&report.crates).as_str());
    out.append(rule_line().as_str());
    out.append(footer_block(report).as_str());
    out
}

/// What reading a repository gave: its cache key, or the message of the
/// failure to compute one; the version in its manifest; and the state of its
/// working tree.
#[derive(Debug)]
pub struct CrateProbe {
    /// Key of the state of the repository, or why there is none.
    pub cache_key: Result<String, String>,
    /// Version found in the manifest.
    pub local_version: Option<String>,
    /// State of the working tree.
    pub git_status: GitStatus,
}

/// A copy of an optional text.
pub fn copy_text(text: &Option<String>) -> (copy: Option<String>)
    ensures
        copy == *text,
{
    match text {
        Some(t) => Some(t.clone()),
        None => None,
    }
}

/// A copy of a git status.
pub fn copy_git_status(status: &GitStatus) -> (copy: GitStatus)
    ensures
        copy == *status,
{
    GitStatus {
        modified: status.modified,
        untracked: status.untracked,
        staged: status.staged,
        head_sha: status.head_sha.clone(),
        is_clean: status.is_clean,
    }
}

/// A copy of a crate status.
pub fn copy_status(status: &CrateStatus) -> (copy: CrateStatus)
    ensures
        copy == *status,
{
    CrateStatus {
        name: status.name.clone(),
        local_version: copy_text(&status.local_version),
        crates_io_version: copy_text(&status.crates_io_version),
        git_status: copy_git_status(&status.git_status),
        action: status.action,
        path: status.path.clone(),
        error: copy_text(&status.error),
    }
}

/// The status of a crate whose repository could not be read.
pub open spec fn failed_status(status: CrateStatus, name: Seq<char>, path: Seq<char>, message: Seq<char>) -> bool {
    &&& status.name@ == name
    &&& status.local_version is None
    &&& status.crates_io_version is None
    &&& status.git_status.modified == 0
    &&& status.git_status.untracked == 0
    &&& status.git_status.staged == 0
    &&& status.git_status.head_sha@.len() == 0
    &&& !status.git_status.is_clean
    &&& status.action == PublishAction::Error
    &&& status.path@ == path
    &&& status.error is Some
    &&& status.error->0@ == message
}

/// The status of a crate read afresh, before the registry was asked: what
/// was read of it, and the action that follows without a registry version.
pub open spec fn fresh_status(
    status: CrateStatus,
    name: Seq<char>,
    path: Seq<char>,
    local_version: Option<String>,
    git_status: GitStatus,
) -> bool {
    &&& status.name@ == name
    &&& status.local_version == local_version
    &&& status.crates_io_version is None
    &&& status.git_status == git_status
    &&& status.action == action_of(
        match local_version {
            Some(v) => Some(v@),
            None => None,
        },
        None,
        git_status.is_clean,
        None,
    )
    &&& status.path@ == path
    &&& status.error is None
}

/// Whether `after` is `slots` with the slot of crate `name` replaced where
/// it stood, or added at the end if there was none; every other slot is
/// where and as it was.
pub open spec fn slot_replaced(slots: Seq<CacheSlot>, name: Seq<char>, after: Seq<CacheSlot>) -> bool {
    match find_slot(slots, name) {
        Some(i) => {
            &&& after.len() == slots.len()
            &&& after[i].name@ == name
            &&& forall|j: int| 0 <= j < slots.len() && j != i ==> after[j] == slots[j]
        },
        None => {
            &&& after.len() == slots.len() + 1
            &&& after[slots.len() as int].name@ == name
            &&& forall|j: int| 0 <= j < slots.len() ==> after[j] == slots[j]
        },
    }
}

/// Scanner of a workspace: where it lies, and the cache of earlier answers.
#[derive(Debug)]
pub struct PublishStatusScanner {
    workspace_root: String,
    cache: PublishStatusCache,
}

impl PublishStatusScanner {
    /// The slots of the scanner's cache.
    pub closed spec fn cached(&self) -> Seq<CacheSlot> {
        self.cache.slots()
    }

    /// The root of the workspace.
    pub closed spec fn root(&self) -> Seq<char> {
        self.workspace_root@
    }

    /// A scanner for the workspace at `workspace_root` that starts with
    /// `cache`.
    #[must_use]
    pub fn new(workspace_root: String, cache: PublishStatusCache) -> (scanner: Self)
        ensures
            scanner.root() == workspace_root@,
            scanner.cached() == cache.slots(),
    {
        PublishStatusScanner { workspace_root, cache }
    }

    /// The root of the workspace.
    pub fn workspace_root(&self) -> (path: &str)
        ensures
            path@ == self.root(),
    {
        self.workspace_root.as_str()
    }

    /// The cache.
    pub fn cache(&self) -> (cache: &PublishStatusCache)
        ensures
            cache.slots() == self.cached(),
    {
        &self.cache
    }

    /// The cached answer for crate `name` in the state `cache_key`, unless
    /// its registry version is stale at `now`.
    pub open spec fn fresh_entry(slots: Seq<CacheSlot>, name: Seq<char>, cache_key: Seq<char>, now: u64) -> Option<
        CrateStatus,
    > {
        match PublishStatusCache::valid_entry(slots, name, cache_key) {
            Some(entry) => if entry.stale_at(now) {
                None
            } else {
                Some(entry.status)
            },
            None => None,
        }
    }

    /// Whether no entry for `name` in the state `cache_key` was made after
    /// `now`.
    pub open spec fn not_from_future(slots: Seq<CacheSlot>, name: Seq<char>, cache_key: Seq<char>, now: u64) -> bool {
        match PublishStatusCache::valid_entry(slots, name, cache_key) {
            Some(entry) => entry.crates_io_checked_at <= now,
            None => true,
        }
    }

    /// The cached status of crate `name` for the state `cache_key`, if the
    /// cache holds one that is not stale at `now`. Where this answers, the
    /// repository need not be read.
    pub fn cached_status(&self, name: &str, cache_key: &str, now: u64) -> (hit: Option<CrateStatus>)
        requires
            Self::not_from_future(self.cached(), name@, cache_key@, now),
        ensures
            hit == Self::fresh_entry(self.cached(), name@, cache_key@, now),
    {
        match self.cache.get(name, cache_key) {
            Some(entry) => {
                if entry.is_crates_io_stale(now) {
                    None
                } else {
                    Some(copy_status(&entry.status))
                }
            },
            None => None,
        }
    }

    /// Records a status read afresh at `now` for the state `cache_key`, and
    /// returns it. The registry version is left open: the action is the one
    /// that follows without it.
    pub fn refresh_crate(
        &mut self,
        name: &str,
        path: &str,
        cache_key: &str,
        local_version: Option<String>,
        git_status: GitStatus,
        now: u64,
    ) -> (status: CrateStatus)
        ensures
            fresh_status(status, name@, path@, local_version, git_status),
            final(self).root() == old(self).root(),
            PublishStatusCache::valid_entry(final(self).cached(), name@, cache_key@) is Some,
            ({
                let entry = PublishStatusCache::valid_entry(final(self).cached(), name@, cache_key@)->0;
                &&& entry.status == status
                &&& entry.cache_key@ == cache_key@
                &&& entry.crates_io_checked_at == now
                &&& entry.created_at == now
            }),
            slot_replaced(old(self).cached(), name@, final(self).cached()),
    {
        let action = match &local_version {
            Some(v) => determine_action(Some(v.as_str()), None, &git_status),
            None => determine_action(None, None, &git_status),
        };
        let status = CrateStatus {
            name: String::from_str(name),
            local_version,
            crates_io_version: None,
            git_status,
            action,
            path: String::from_str(path),
            error: None,
        };
        let entry = CacheEntry {
            cache_key: String::from_str(cache_key),
            status: copy_status(&status),
            crates_io_checked_at: now,
            created_at: now,
        };
        let key_name = String::from_str(name);
        proof {
            lemma_insert_keeps_others(self.cache.slots(), key_name, entry);
            lemma_find_slot(self.cache.slots(), name@);
        }
        self.cache.insert(key_name, entry);
        status
    }

    /// The status of crate `name` at `path`, given what reading its
    /// repository gave. A failed cache key gives an error status. A cached
    /// status for the same state that is not stale at `now` is handed out
    /// as it is. Otherwise the status is made afresh and cached.
    pub fn check_crate(&mut self, name: &str, path: &str, probe: CrateProbe, now: u64) -> (status: CrateStatus)
        requires
            match probe.cache_key {
                Ok(key) => Self::not_from_future(old(self).cached(), name@, key@, now),
                Err(_) => true,
            },
        ensures
            final(self).root() == old(self).root(),
            match probe.cache_key {
                Err(message) => failed_status(status, name@, path@, message@) && final(self).cached() == old(
                    self,
                ).cached(),
                Ok(key) => match Self::fresh_entry(old(self).cached(), name@, key@, now) {
                    Some(hit) => status == hit && final(self).cached() == old(self).cached(),
                    None => {
                        &&& fresh_status(status, name@, path@, probe.local_version, probe.git_status)
                        &&& Self::fresh_entry(final(self).cached(), name@, key@, now) == Some(status)
                        &&& slot_replaced(old(self).cached(), name@, final(self).cached())
                    },
                },
            },
    {
        match probe.cache_key {
            Err(message) => CrateStatus {
                name: String::from_str(name),
                local_version: None,
                crates_io_version: None,
                git_status: GitStatus::default(),
                action: PublishAction::Error,
                path: String::from_str(path),
                error: Some(message),
            },
            Ok(key) => {
                match self.cached_status(name, key.as_str(), now) {
                    Some(hit) => hit,
                    None => self.refresh_crate(
                        name,
                        path,
                        key.as_str(),
                        probe.local_version,
                        probe.git_status,
                        now,
                    ),
                }
            },
        }
    }
}

/// An insert for one crate leaves the slots of all other crates where and
/// as they were.
pub proof fn lemma_insert_keeps_others(slots: Seq<CacheSlot>, name: String, entry: CacheEntry)
    ensures
        ({
            let after = match find_slot(slots, name@) {
                Some(i) => slots.update(i, CacheSlot { name, entry }),
                None => slots.push(CacheSlot { name, entry }),
            };
            &&& PublishStatusCache::valid_entry(after, name@, entry.cache_key@) == Some(entry)
            &&& forall|other: Seq<char>| other != name@ ==> #[trigger] find_slot(after, other) == find_slot(slots, other)
            &&& forall|other: Seq<char>|
                other != name@ && find_slot(slots, other) is Some ==> after[(#[trigger] find_slot(slots, other))->0]
                    == slots[find_slot(slots, other)->0]
        }),
{
    let slot = CacheSlot { name, entry };
    let after = match find_slot(slots, name@) {
        Some(i) => slots.update(i, slot),
        None => slots.push(slot),
    };
    lemma_find_slot(slots, name@);
    lemma_find_slot(after, name@);
    match find_slot(slots, name@) {
        Some(i) => {
            assert(after[i].name@ == name@);
        },
        None => {
            assert(after[slots.len() as int].name@ == name@);
        },
    }
    assert forall|other: Seq<char>| other != name@ implies #[trigger] find_slot(after, other) == find_slot(
        slots,
        other,
    ) by {
        lemma_find_slot(slots, other);
        lemma_find_slot(after, other);
        match find_slot(slots, other) {
            Some(j) => {
                assert(after[j].name@ == other);
                match find_slot(after, other) {
                    Some(k) => {
                        if k < j {
                            assert(slots[k].name@ == after[k].name@);
                        }
                    },
                    None => {},
                }
            },
            None => {
                match find_slot(after, other) {
                    Some(k) => {
                        if k < slots.len() {
                            assert(slots[k].name@ != other);
                        }
                    },
                    None => {},
                }
            },
        }
    }
    assert forall|other: Seq<char>| other != name@ && find_slot(slots, other) is Some implies after[(
    #[trigger] find_slot(slots, other))->0] == slots[find_slot(slots, other)->0] by {
        lemma_find_slot(slots, other);
    }
}

} // verus!
