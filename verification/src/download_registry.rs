//! The table of downloads a session knows about: what each one is, how far
//! it has got, and the pause and cancel requests that the transfer reads.
//! Every operation is stated as a change of the table's contents.

use vstd::prelude::*;
use std::collections::HashMap;
use vstd::std_specs::hash::spec_keys_iter;
use vstd::std_specs::iter::IteratorSpec;
use crate::downloads::DownloadStatus;

verus! {

broadcast use vstd::std_specs::hash::group_hash_axioms;

/// Everything known about one download.
#[derive(Clone, Debug)]
pub struct DownloadInfo {
    pub id: u128,
    pub url: String,
    pub filename: String,
    pub destination: String,
    pub total_bytes: Option<u64>,
    pub downloaded_bytes: u64,
    pub status: DownloadStatus,
    pub error: Option<String>,
    pub sha256: Option<String>,
    pub speed_bytes_per_second: Option<u64>,
}

/// A download's record as values.
pub ghost struct DownloadInfoView {
    pub id: u128,
    pub url: Seq<char>,
    pub filename: Seq<char>,
    pub destination: Seq<char>,
    pub total_bytes: Option<u64>,
    pub downloaded_bytes: u64,
    pub status: DownloadStatus,
    pub error: Option<Seq<char>>,
    pub sha256: Option<Seq<char>>,
    pub speed_bytes_per_second: Option<u64>,
}

pub open spec fn opt_string_view(o: Option<String>) -> Option<Seq<char>> {
    match o {
        Some(s) => Some(s@),
        None => None,
    }
}

impl View for DownloadInfo {
    type V = DownloadInfoView;

    open spec fn view(&self) -> DownloadInfoView {
        DownloadInfoView {
            id: self.id,
            url: self.url@,
            filename: self.filename@,
            destination: self.destination@,
            total_bytes: self.total_bytes,
            downloaded_bytes: self.downloaded_bytes,
            status: self.status,
            error: opt_string_view(self.error),
            sha256: opt_string_view(self.sha256),
            speed_bytes_per_second: self.speed_bytes_per_second,
        }
    }
}

/// A download that has not started: nothing fetched, no size known yet.
pub open spec fn queued_view(id: u128, url: Seq<char>, filename: Seq<char>, destination: Seq<char>) -> DownloadInfoView {
    DownloadInfoView {
        id,
        url,
        filename,
        destination,
        total_bytes: None,
        downloaded_bytes: 0,
        status: DownloadStatus::Queued,
        error: None,
        sha256: None,
        speed_bytes_per_second: None,
    }
}

/// A random (version 4) UUID as a number: the version field, bits 76 to
/// 79, holds 4 and the variant field, bits 62 and 63, holds the binary 10.
pub open spec fn is_v4_uuid_value(id: u128) -> bool {
    (id >> 76u128) & 0xfu128 == 4u128 && (id >> 62u128) & 3u128 == 2u128
}

/// Calls `uuid::Uuid::new_v4` and gives its value as a number
/// (`Uuid::as_u128`). The value is random; the contract states the bits
/// that `new_v4` fixes in every value it makes.
#[verifier::external_body]
fn new_download_id() -> (r: u128)
    ensures
        is_v4_uuid_value(r),
{
    uuid::Uuid::new_v4().as_u128()
}

fn copy_opt_string(o: &Option<String>) -> (r: Option<String>)
    ensures
        opt_string_view(r) == opt_string_view(*o),
{
    match o {
        Some(s) => Some(s.clone()),
        None => None,
    }
}

impl DownloadInfo {
    /// The record of a download that has just been queued.
    pub fn queued(id: u128, url: String, filename: String, destination: String) -> (r: DownloadInfo)
        ensures
            r@ == queued_view(id, url@, filename@, destination@),
    {
        DownloadInfo {
            id,
            url,
            filename,
            destination,
            total_bytes: None,
            downloaded_bytes: 0,
            status: DownloadStatus::Queued,
            error: None,
            sha256: None,
            speed_bytes_per_second: None,
        }
    }

    /// The record of a download queued under a fresh random id.
    pub fn new_queued(url: String, filename: String, destination: String) -> (r: DownloadInfo)
        ensures
            is_v4_uuid_value(r.id),
            r@ == queued_view(r.id, url@, filename@, destination@),
    {
        let id = new_download_id();
        DownloadInfo::queued(id, url, filename, destination)
    }

    /// A copy of the record.
    pub fn duplicate(&self) -> (r: DownloadInfo)
        ensures
            r@ == self@,
    {
        DownloadInfo {
            id: self.id,
            url: self.url.clone(),
            filename: self.filename.clone(),
            destination: self.destination.clone(),
            total_bytes: self.total_bytes,
            downloaded_bytes: self.downloaded_bytes,
            status: self.status,
            error: copy_opt_string(&self.error),
            sha256: copy_opt_string(&self.sha256),
            speed_bytes_per_second: self.speed_bytes_per_second,
        }
    }
}

/// What listeners are told; each carries the record as it stands after
/// the change.
#[derive(Clone, Debug)]
pub enum DownloadEvent {
    Added(DownloadInfo),
    Progress(DownloadInfo),
    Completed(DownloadInfo),
    Cancelled(DownloadInfo),
    Failed(DownloadInfo),
}

struct DownloadEntry {
    info: DownloadInfo,
    paused: bool,
    cancelled: bool,
}

/// One row of the table: the record and the two requests the transfer
/// polls.
pub ghost struct EntryView {
    pub info: DownloadInfoView,
    pub paused: bool,
    pub cancelled: bool,
}

impl View for DownloadEntry {
    type V = EntryView;

    closed spec fn view(&self) -> EntryView {
        EntryView { info: self.info@, paused: self.paused, cancelled: self.cancelled }
    }
}

/// The downloads of a session, each filed under its id.
pub struct DownloadRegistry {
    entries: HashMap<u128, DownloadEntry>,
}

impl View for DownloadRegistry {
    type V = Map<u128, EntryView>;

    closed spec fn view(&self) -> Map<u128, EntryView> {
        self.entries@.map_values(|e: DownloadEntry| e@)
    }
}

pub open spec fn has_id(s: Map<u128, EntryView>, id: u128) -> bool {
    s.contains_key(id)
}

/// The row with `id`, if there is one.
pub open spec fn lookup(s: Map<u128, EntryView>, id: u128) -> Option<EntryView> {
    if s.contains_key(id) {
        Some(s[id])
    } else {
        None
    }
}

/// Every row is filed under the id of its own record.
pub open spec fn ids_match_keys(s: Map<u128, EntryView>) -> bool {
    forall|id: u128| #[trigger] s.contains_key(id) ==> s[id].info.id == id
}

/// The table with the row of `id` changed by `f`; unchanged when absent.
pub open spec fn map_entry(s: Map<u128, EntryView>, id: u128, f: spec_fn(EntryView) -> EntryView) -> Map<
    u128,
    EntryView,
> {
    if s.contains_key(id) {
        s.insert(id, f(s[id]))
    } else {
        s
    }
}

pub open spec fn fresh_entry(info: DownloadInfoView) -> EntryView {
    EntryView { info, paused: false, cancelled: false }
}

pub open spec fn with_status(i: DownloadInfoView, status: DownloadStatus) -> DownloadInfoView {
    DownloadInfoView { status, ..i }
}

/// The row of the same id is replaced, else one is added.
pub open spec fn insert_spec(s: Map<u128, EntryView>, info: DownloadInfoView) -> Map<u128, EntryView> {
    s.insert(info.id, fresh_entry(info))
}

pub open spec fn paused_entry(e: EntryView) -> EntryView {
    EntryView { info: with_status(e.info, DownloadStatus::Paused), paused: true, ..e }
}

pub open spec fn pause_spec(s: Map<u128, EntryView>, id: u128) -> Map<u128, EntryView> {
    map_entry(s, id, |e: EntryView| paused_entry(e))
}

pub open spec fn resumed_entry(e: EntryView) -> EntryView {
    EntryView {
        info: if e.info.status == DownloadStatus::Paused {
            with_status(e.info, DownloadStatus::Downloading)
        } else {
            e.info
        },
        paused: false,
        ..e
    }
}

pub open spec fn resume_spec(s: Map<u128, EntryView>, id: u128) -> Map<u128, EntryView> {
    map_entry(s, id, |e: EntryView| resumed_entry(e))
}

pub open spec fn cancel_requested_entry(e: EntryView) -> EntryView {
    EntryView { cancelled: true, ..e }
}

pub open spec fn cancel_spec(s: Map<u128, EntryView>, id: u128) -> Map<u128, EntryView> {
    map_entry(s, id, |e: EntryView| cancel_requested_entry(e))
}

pub open spec fn remove_spec(s: Map<u128, EntryView>, id: u128) -> Map<u128, EntryView> {
    s.remove(id)
}

/// A paused or failed download may be started again.
pub open spec fn can_restart(status: DownloadStatus) -> bool {
    status == DownloadStatus::Paused || status == DownloadStatus::Failed
}

pub open spec fn requeued_entry(e: EntryView) -> EntryView {
    EntryView {
        info: DownloadInfoView { status: DownloadStatus::Queued, error: None, ..e.info },
        paused: false,
        cancelled: false,
    }
}

pub open spec fn resume_interrupted_spec(s: Map<u128, EntryView>, id: u128) -> Map<u128, EntryView> {
    if s.contains_key(id) && can_restart(s[id].info.status) {
        map_entry(s, id, |e: EntryView| requeued_entry(e))
    } else {
        s
    }
}

pub open spec fn failed_entry(e: EntryView, error: Seq<char>) -> EntryView {
    EntryView { info: DownloadInfoView { status: DownloadStatus::Failed, error: Some(error), ..e.info }, ..e }
}

pub open spec fn fail_spec(s: Map<u128, EntryView>, id: u128, error: Seq<char>) -> Map<u128, EntryView> {
    map_entry(s, id, |e: EntryView| failed_entry(e, error))
}

pub open spec fn status_entry(e: EntryView, status: DownloadStatus) -> EntryView {
    EntryView { info: with_status(e.info, status), ..e }
}

pub open spec fn set_status_spec(s: Map<u128, EntryView>, id: u128, status: DownloadStatus) -> Map<u128, EntryView> {
    map_entry(s, id, |e: EntryView| status_entry(e, status))
}

pub open spec fn moved_entry(e: EntryView, filename: Seq<char>, destination: Seq<char>) -> EntryView {
    EntryView { info: DownloadInfoView { filename, destination, ..e.info }, ..e }
}

pub open spec fn set_destination_spec(
    s: Map<u128, EntryView>,
    id: u128,
    filename: Seq<char>,
    destination: Seq<char>,
) -> Map<u128, EntryView> {
    map_entry(s, id, |e: EntryView| moved_entry(e, filename, destination))
}

pub open spec fn receiving_entry(e: EntryView, total: Option<u64>, existing: u64) -> EntryView {
    EntryView { info: DownloadInfoView { total_bytes: total, downloaded_bytes: existing, ..e.info }, ..e }
}

pub open spec fn begin_receiving_spec(s: Map<u128, EntryView>, id: u128, total: Option<u64>, existing: u64) -> Map<
    u128,
    EntryView,
> {
    map_entry(s, id, |e: EntryView| receiving_entry(e, total, existing))
}

pub open spec fn progressed_entry(e: EntryView, downloaded: u64) -> EntryView {
    EntryView {
        info: DownloadInfoView { downloaded_bytes: downloaded, status: DownloadStatus::Downloading, ..e.info },
        ..e
    }
}

pub open spec fn record_progress_spec(s: Map<u128, EntryView>, id: u128, downloaded: u64) -> Map<u128, EntryView> {
    map_entry(s, id, |e: EntryView| progressed_entry(e, downloaded))
}

pub open spec fn speed_entry(e: EntryView, speed: u64) -> EntryView {
    EntryView { info: DownloadInfoView { speed_bytes_per_second: Some(speed), ..e.info }, ..e }
}

pub open spec fn set_speed_spec(s: Map<u128, EntryView>, id: u128, speed: u64) -> Map<u128, EntryView> {
    map_entry(s, id, |e: EntryView| speed_entry(e, speed))
}

pub open spec fn completed_entry(e: EntryView, downloaded: u64, sha256: Seq<char>) -> EntryView {
    EntryView {
        info: DownloadInfoView {
            downloaded_bytes: downloaded,
            total_bytes: Some(downloaded),
            status: DownloadStatus::Completed,
            sha256: Some(sha256),
            ..e.info
        },
        ..e
    }
}

pub open spec fn complete_spec(s: Map<u128, EntryView>, id: u128, downloaded: u64, sha256: Seq<char>) -> Map<
    u128,
    EntryView,
> {
    map_entry(s, id, |e: EntryView| completed_entry(e, downloaded, sha256))
}

impl DownloadRegistry {
    /// The table's invariant: every row is filed under its record's id.
    pub closed spec fn wf(&self) -> bool {
        ids_match_keys(self@)
    }

    /// A well-formed table files every row under its record's id; the laws
    /// below take that.
    pub proof fn lemma_wf_keys(&self)
        requires
            self.wf(),
        ensures
            ids_match_keys(self@),
    {
    }

    /// An empty table.
    pub fn new() -> (r: DownloadRegistry)
        ensures
            r.wf(),
            r@ == Map::<u128, EntryView>::empty(),
    {
        let r = DownloadRegistry { entries: HashMap::new() };
        assert(r@ =~= Map::<u128, EntryView>::empty());
        r
    }

    /// Take the row of `id` out of the table.
    fn take(&mut self, id: u128) -> (r: Option<DownloadEntry>)
        requires
            old(self).wf(),
        ensures
            final(self).wf(),
            match r {
                Some(e) => old(self)@.contains_key(id) && e@ == old(self)@[id] && e.info.id == id
                    && final(self)@ == old(self)@.remove(id),
                None => !old(self)@.contains_key(id) && final(self)@ == old(self)@,
            },
    {
        let r = self.entries.remove(&id);
        proof {
            assert(self@ =~= old(self)@.remove(id));
        }
        r
    }

    /// File `e` under its record's id, replacing any row there.
    fn put(&mut self, e: DownloadEntry)
        requires
            old(self).wf(),
        ensures
            final(self).wf(),
            final(self)@ == old(self)@.insert(e.info.id, e@),
    {
        let ghost v = e@;
        let id = e.info.id;
        self.entries.insert(id, e);
        proof {
            assert(self@ =~= old(self)@.insert(id, v));
        }
    }

    /// Add a download, or replace the one with the same id; its pause and
    /// cancel requests start cleared.
    pub fn insert(&mut self, info: DownloadInfo)
        requires
            old(self).wf(),
        ensures
            final(self).wf(),
            final(self)@ == insert_spec(old(self)@, info@),
    {
        self.put(DownloadEntry { info, paused: false, cancelled: false });
    }

    /// Record a new download (replacing one with the same id); gives the
    /// event that announces it.
    pub fn add(&mut self, info: DownloadInfo) -> (r: DownloadEvent)
        requires
            old(self).wf(),
        ensures
            final(self).wf(),
            final(self)@ == insert_spec(old(self)@, info@),
            r matches DownloadEvent::Added(i) && i@ == info@,
    {
        let snapshot = info.duplicate();
        self.insert(info);
        DownloadEvent::Added(snapshot)
    }

    /// Ask a download to pause; its record reads `Paused` at once. Gives
    /// whether the id is known and, if so, the progress event to send.
    pub fn pause(&mut self, id: u128) -> (r: (bool, Option<DownloadEvent>))
        requires
            old(self).wf(),
        ensures
            final(self).wf(),
            final(self)@ == pause_spec(old(self)@, id),
            r.0 == has_id(old(self)@, id),
            r.0 ==> (r.1 matches Some(DownloadEvent::Progress(info)) && info@ == lookup(final(self)@, id)->0.info),
            !r.0 ==> r.1 is None,
    {
        match self.take(id) {
            None => (false, None),
            Some(mut e) => {
                e.paused = true;
                e.info.status = DownloadStatus::Paused;
                let snapshot = e.info.duplicate();
                self.put(e);
                proof {
                    assert(self@ =~= pause_spec(old(self)@, id));
                }
                (true, Some(DownloadEvent::Progress(snapshot)))
            },
        }
    }

    /// Withdraw a pause request; a `Paused` record reads `Downloading`
    /// again, and only then is a progress event sent.
    pub fn resume(&mut self, id: u128) -> (r: (bool, Option<DownloadEvent>))
        requires
            old(self).wf(),
        ensures
            final(self).wf(),
            final(self)@ == resume_spec(old(self)@, id),
            r.0 == has_id(old(self)@, id),
            (r.0 && lookup(old(self)@, id)->0.info.status == DownloadStatus::Paused) ==> (r.1 matches Some(
                DownloadEvent::Progress(info),
            ) && info@ == lookup(final(self)@, id)->0.info),
            !(r.0 && lookup(old(self)@, id)->0.info.status == DownloadStatus::Paused) ==> r.1 is None,
    {
        match self.take(id) {
            None => (false, None),
            Some(mut e) => {
                e.paused = false;
                let mut event: Option<DownloadEvent> = None;
                if e.info.status == DownloadStatus::Paused {
                    e.info.status = DownloadStatus::Downloading;
                    event = Some(DownloadEvent::Progress(e.info.duplicate()));
                }
                self.put(e);
                proof {
                    assert(self@ =~= resume_spec(old(self)@, id));
                }
                (true, event)
            },
        }
    }

    /// Ask a download to stop; the transfer acts on it.
    pub fn cancel(&mut self, id: u128) -> (found: bool)
        requires
            old(self).wf(),
        ensures
            final(self).wf(),
            final(self)@ == cancel_spec(old(self)@, id),
            found == has_id(old(self)@, id),
    {
        match self.take(id) {
            None => false,
            Some(mut e) => {
                e.cancelled = true;
                self.put(e);
                proof {
                    assert(self@ =~= cancel_spec(old(self)@, id));
                }
                true
            },
        }
    }

    /// The record of `id`.
    pub fn get(&self, id: u128) -> (r: Option<DownloadInfo>)
        requires
            self.wf(),
        ensures
            match r {
                Some(info) => lookup(self@, id) matches Some(e) && info@ == e.info,
                None => lookup(self@, id) is None,
            },
    {
        match self.entries.get(&id) {
            None => None,
            Some(e) => Some(e.info.duplicate()),
        }
    }

    /// Whether pause and cancel have been asked for `id` (both `false` for
    /// an unknown id).
    pub fn requests(&self, id: u128) -> (r: (bool, bool))
        requires
            self.wf(),
        ensures
            match lookup(self@, id) {
                Some(e) => r == (e.paused, e.cancelled),
                None => r == (false, false),
            },
    {
        match self.entries.get(&id) {
            None => (false, false),
            Some(e) => (e.paused, e.cancelled),
        }
    }

    /// Forget a download; gives whether it was known.
    pub fn remove_history(&mut self, id: u128) -> (removed: bool)
        requires
            old(self).wf(),
        ensures
            final(self).wf(),
            final(self)@ == remove_spec(old(self)@, id),
            removed == has_id(old(self)@, id),
    {
        match self.take(id) {
            None => false,
            Some(_) => true,
        }
    }

    /// The records of all downloads, each once, in the order the table
    /// walks its ids.
    pub fn list(&self) -> (r: Vec<DownloadInfo>)
        requires
            self.wf(),
        ensures
            r@.len() == self@.dom().len(),
            forall|k: int|
                0 <= k < r@.len() ==> self@.contains_key(#[trigger] r@[k].id) && r@[k]@ == self@[r@[k].id].info,
            forall|i: int, j: int| 0 <= i < r@.len() && 0 <= j < r@.len() && #[trigger] r@[i].id == #[trigger] r@[j].id ==> i == j,
            forall|id: u128| #[trigger] self@.contains_key(id) ==> exists|k: int| 0 <= k < r@.len() && r@[k].id == id,
    {
        let mut out: Vec<DownloadInfo> = Vec::new();
        let ghost all = spec_keys_iter(&self.entries).remaining().unref();
        assert(all.to_set() == self.entries@.dom());
        for key in it: self.entries.keys()
            invariant
                it.seq().unref() == all,
                all.to_set() == self.entries@.dom(),
                all.no_duplicates(),
                all.len() == self.entries@.dom().len(),
                self.wf(),
                out@.len() == it.index(),
                forall|k: int| 0 <= k < out@.len() ==> (#[trigger] out@[k]).id == all[k] && out@[k]@ == self@[all[k]].info,
        {
            let ghost i = it.index();
            assert(all.to_set().contains(all[i]));
            assert(*key == all[i]);
            assert(self.entries@.contains_key(all[i]));
            assert(self@.contains_key(all[i]));
            match self.entries.get(key) {
                Some(e) => {
                    assert(self.entries@[all[i]] == *e);
                    assert(self@[all[i]] == e@);
                    let info = e.info.duplicate();
                    out.push(info);
                    assert(out@[i]@ == self@[all[i]].info);
                },
                None => {},
            }
        }
        assert(self@.dom() =~= self.entries@.dom());
        proof {
            assert forall|id: u128| #[trigger] self@.contains_key(id) implies exists|k: int|
                0 <= k < out@.len() && out@[k].id == id by {
                assert(all.to_set().contains(id));
                let k = choose|k: int| 0 <= k < all.len() && all[k] == id;
                assert(out@[k].id == id);
            }
        }
        out
    }

    /// Queue a paused or failed download again, clearing its error and its
    /// requests. Gives `false`, changing nothing, for an unknown id or any
    /// other status.
    pub fn resume_interrupted(&mut self, id: u128) -> (restarted: bool)
        requires
            old(self).wf(),
        ensures
            final(self).wf(),
            final(self)@ == resume_interrupted_spec(old(self)@, id),
            restarted == (has_id(old(self)@, id) && can_restart(lookup(old(self)@, id)->0.info.status)),
    {
        match self.take(id) {
            None => false,
            Some(mut e) => {
                if !(e.info.status == DownloadStatus::Paused || e.info.status == DownloadStatus::Failed) {
                    self.put(e);
                    proof {
                        assert(self@ =~= old(self)@);
                    }
                    return false;
                }
                e.cancelled = false;
                e.paused = false;
                e.info.status = DownloadStatus::Queued;
                e.info.error = None;
                self.put(e);
                proof {
                    assert(self@ =~= resume_interrupted_spec(old(self)@, id));
                }
                true
            },
        }
    }

    /// Mark a download failed with `error`; gives the event to send.
    pub fn fail(&mut self, id: u128, error: String) -> (r: Option<DownloadEvent>)
        requires
            old(self).wf(),
        ensures
            final(self).wf(),
            final(self)@ == fail_spec(old(self)@, id, error@),
            has_id(old(self)@, id) ==> (r matches Some(DownloadEvent::Failed(info)) && info@ == lookup(
                final(self)@,
                id,
            )->0.info),
            !has_id(old(self)@, id) ==> r is None,
    {
        match self.take(id) {
            None => None,
            Some(mut e) => {
                e.info.status = DownloadStatus::Failed;
                e.info.error = Some(error);
                let snapshot = e.info.duplicate();
                self.put(e);
                proof {
                    assert(self@ =~= fail_spec(old(self)@, id, error@));
                }
                Some(DownloadEvent::Failed(snapshot))
            },
        }
    }

    /// Mark a download cancelled; gives the event to send.
    pub fn finish_cancelled(&mut self, id: u128) -> (r: Option<DownloadEvent>)
        requires
            old(self).wf(),
        ensures
            final(self).wf(),
            final(self)@ == set_status_spec(old(self)@, id, DownloadStatus::Cancelled),
            has_id(old(self)@, id) ==> (r matches Some(DownloadEvent::Cancelled(info)) && info@ == lookup(
                final(self)@,
                id,
            )->0.info),
            !has_id(old(self)@, id) ==> r is None,
    {
        match self.take(id) {
            None => None,
            Some(mut e) => {
                e.info.status = DownloadStatus::Cancelled;
                let snapshot = e.info.duplicate();
                self.put(e);
                proof {
                    assert(self@ =~= set_status_spec(old(self)@, id, DownloadStatus::Cancelled));
                }
                Some(DownloadEvent::Cancelled(snapshot))
            },
        }
    }

    /// Set the status of a download.
    pub fn set_status(&mut self, id: u128, status: DownloadStatus)
        requires
            old(self).wf(),
        ensures
            final(self).wf(),
            final(self)@ == set_status_spec(old(self)@, id, status),
    {
        match self.take(id) {
            None => {},
            Some(mut e) => {
                e.info.status = status;
                self.put(e);
                proof {
                    assert(self@ =~= set_status_spec(old(self)@, id, status));
                }
            },
        }
    }

    /// Point a download at a new file name and destination.
    pub fn set_destination(&mut self, id: u128, filename: String, destination: String)
        requires
            old(self).wf(),
        ensures
            final(self).wf(),
            final(self)@ == set_destination_spec(old(self)@, id, filename@, destination@),
    {
        match self.take(id) {
            None => {},
            Some(mut e) => {
                let ghost f = filename@;
                let ghost d = destination@;
                e.info.filename = filename;
                e.info.destination = destination;
                self.put(e);
                proof {
                    assert(self@ =~= set_destination_spec(old(self)@, id, f, d));
                }
            },
        }
    }

    /// Record the size announced for a response and what is already on disk.
    pub fn begin_receiving(&mut self, id: u128, total_bytes: Option<u64>, existing: u64)
        requires
            old(self).wf(),
        ensures
            final(self).wf(),
            final(self)@ == begin_receiving_spec(old(self)@, id, total_bytes, existing),
    {
        match self.take(id) {
            None => {},
            Some(mut e) => {
                e.info.total_bytes = total_bytes;
                e.info.downloaded_bytes = existing;
                self.put(e);
                proof {
                    assert(self@ =~= begin_receiving_spec(old(self)@, id, total_bytes, existing));
                }
            },
        }
    }

    /// Record how many bytes have arrived; the download reads `Downloading`.
    pub fn record_progress(&mut self, id: u128, downloaded: u64)
        requires
            old(self).wf(),
        ensures
            final(self).wf(),
            final(self)@ == record_progress_spec(old(self)@, id, downloaded),
    {
        match self.take(id) {
            None => {},
            Some(mut e) => {
                e.info.downloaded_bytes = downloaded;
                e.info.status = DownloadStatus::Downloading;
                self.put(e);
                proof {
                    assert(self@ =~= record_progress_spec(old(self)@, id, downloaded));
                }
            },
        }
    }

    /// Record the measured speed.
    pub fn set_speed(&mut self, id: u128, speed: u64)
        requires
            old(self).wf(),
        ensures
            final(self).wf(),
            final(self)@ == set_speed_spec(old(self)@, id, speed),
    {
        match self.take(id) {
            None => {},
            Some(mut e) => {
                e.info.speed_bytes_per_second = Some(speed);
                self.put(e);
                proof {
                    assert(self@ =~= set_speed_spec(old(self)@, id, speed));
                }
            },
        }
    }

    /// Mark a download complete with its size and checksum; gives the event
    /// to send.
    pub fn complete(&mut self, id: u128, downloaded: u64, sha256: String) -> (r: Option<DownloadEvent>)
        requires
            old(self).wf(),
        ensures
            final(self).wf(),
            final(self)@ == complete_spec(old(self)@, id, downloaded, sha256@),
            has_id(old(self)@, id) ==> (r matches Some(DownloadEvent::Completed(info)) && info@ == lookup(
                final(self)@,
                id,
            )->0.info),
            !has_id(old(self)@, id) ==> r is None,
    {
        match self.take(id) {
            None => None,
            Some(mut e) => {
                let ghost h = sha256@;
                e.info.downloaded_bytes = downloaded;
                e.info.total_bytes = Some(downloaded);
                e.info.status = DownloadStatus::Completed;
                e.info.sha256 = Some(sha256);
                let snapshot = e.info.duplicate();
                self.put(e);
                proof {
                    assert(self@ =~= complete_spec(old(self)@, id, downloaded, h));
                }
                Some(DownloadEvent::Completed(snapshot))
            },
        }
    }
}

/// Changing one row leaves every other id where it was, and the changed
/// row is found under its id.
pub proof fn lemma_map_entry_frame(
    s: Map<u128, EntryView>,
    id: u128,
    f: spec_fn(EntryView) -> EntryView,
    other: u128,
)
    requires
        ids_match_keys(s),
        has_id(s, id) ==> f(s[id]).info.id == id,
    ensures
        ids_match_keys(map_entry(s, id, f)),
        other != id ==> lookup(map_entry(s, id, f), other) == lookup(s, other),
        lookup(map_entry(s, id, f), id) == match lookup(s, id) {
            Some(e) => Some(f(e)),
            None => None::<EntryView>,
        },
{
}

/// A pause followed by a resume leaves a paused-by-request download
/// running: its record reads `Downloading` and no pause is asked for,
/// whatever its status was before; a cancel request is kept.
pub proof fn lemma_pause_then_resume(s: Map<u128, EntryView>, id: u128)
    requires
        ids_match_keys(s),
        has_id(s, id),
    ensures
        lookup(resume_spec(pause_spec(s, id), id), id) == Some(
            EntryView {
                info: with_status(lookup(s, id)->0.info, DownloadStatus::Downloading),
                paused: false,
                cancelled: lookup(s, id)->0.cancelled,
            },
        ),
{
    let e = lookup(s, id)->0;
    assert(with_status(with_status(e.info, DownloadStatus::Paused), DownloadStatus::Downloading) == with_status(
        e.info,
        DownloadStatus::Downloading,
    ));
}

/// A cancel request changes nothing of the record itself.
pub proof fn lemma_cancel_keeps_record(s: Map<u128, EntryView>, id: u128)
    requires
        ids_match_keys(s),
        has_id(s, id),
    ensures
        lookup(cancel_spec(s, id), id)->0.info == lookup(s, id)->0.info,
        lookup(cancel_spec(s, id), id)->0.cancelled,
{
}

/// After an insert the table holds exactly the inserted record under its
/// id, with no request pending, every other row is as it was, and every
/// row stays filed under its id.
pub proof fn lemma_insert_then_lookup(s: Map<u128, EntryView>, info: DownloadInfoView, other: u128)
    requires
        ids_match_keys(s),
    ensures
        ids_match_keys(insert_spec(s, info)),
        lookup(insert_spec(s, info), info.id) == Some(fresh_entry(info)),
        other != info.id ==> lookup(insert_spec(s, info), other) == lookup(s, other),
{
}

/// A forgotten download is no longer found, and every other one still is.
pub proof fn lemma_remove_forgets(s: Map<u128, EntryView>, id: u128, other: u128)
    requires
        ids_match_keys(s),
    ensures
        ids_match_keys(remove_spec(s, id)),
        lookup(remove_spec(s, id), id) is None,
        other != id ==> lookup(remove_spec(s, id), other) == lookup(s, other),
{
}

/// Only a paused or failed download is queued again; for any other the
/// table is left as it was. A queued-again download has no error and no
/// pending request.
pub proof fn lemma_resume_interrupted(s: Map<u128, EntryView>, id: u128)
    requires
        ids_match_keys(s),
    ensures
        !(has_id(s, id) && can_restart(lookup(s, id)->0.info.status)) ==> resume_interrupted_spec(s, id) == s,
        (has_id(s, id) && can_restart(lookup(s, id)->0.info.status)) ==> lookup(resume_interrupted_spec(s, id), id)
            == Some(requeued_entry(lookup(s, id)->0)),
{
}

/// A known download that is paused or failed is started again: the call
/// reports it (`can_restart`), and its row is replaced by the same record
/// reading `Queued` with no error, with no pause or cancel asked for; every
/// other row is kept.
pub proof fn lemma_interrupted_download_requeued(s: Map<u128, EntryView>, id: u128)
    requires
        ids_match_keys(s),
        s.contains_key(id),
        s[id].info.status == DownloadStatus::Paused || s[id].info.status == DownloadStatus::Failed,
    ensures
        has_id(s, id) && can_restart(lookup(s, id)->0.info.status),
        resume_interrupted_spec(s, id) == s.insert(
            id,
            EntryView {
                info: DownloadInfoView { status: DownloadStatus::Queued, error: None, ..s[id].info },
                paused: false,
                cancelled: false,
            },
        ),
{
}

/// A queued, running, completed or cancelled download is not started
/// again: the call reports `false` and the table is unchanged.
pub proof fn lemma_active_or_finished_not_requeued(s: Map<u128, EntryView>, id: u128)
    requires
        s.contains_key(id),
        s[id].info.status != DownloadStatus::Paused,
        s[id].info.status != DownloadStatus::Failed,
    ensures
        !can_restart(lookup(s, id)->0.info.status),
        resume_interrupted_spec(s, id) == s,
{
}

/// What each update does to the row of a known download, field by field,
/// every other row being kept: a pause marks it paused and `Paused`; a
/// cancel request only sets the cancel flag; progress sets the byte count
/// and `Downloading`; a failure sets `Failed` and the error; completion
/// sets both byte counts to the final size, `Completed` and the checksum.
pub proof fn lemma_row_updates(
    s: Map<u128, EntryView>,
    id: u128,
    downloaded: u64,
    error: Seq<char>,
    sha256: Seq<char>,
)
    requires
        s.contains_key(id),
    ensures
        pause_spec(s, id) == s.insert(
            id,
            EntryView { info: DownloadInfoView { status: DownloadStatus::Paused, ..s[id].info }, paused: true, ..s[id] },
        ),
        cancel_spec(s, id) == s.insert(id, EntryView { cancelled: true, ..s[id] }),
        record_progress_spec(s, id, downloaded) == s.insert(
            id,
            EntryView {
                info: DownloadInfoView {
                    downloaded_bytes: downloaded,
                    status: DownloadStatus::Downloading,
                    ..s[id].info
                },
                ..s[id]
            },
        ),
        fail_spec(s, id, error) == s.insert(
            id,
            EntryView {
                info: DownloadInfoView { status: DownloadStatus::Failed, error: Some(error), ..s[id].info },
                ..s[id]
            },
        ),
        complete_spec(s, id, downloaded, sha256) == s.insert(
            id,
            EntryView {
                info: DownloadInfoView {
                    downloaded_bytes: downloaded,
                    total_bytes: Some(downloaded),
                    status: DownloadStatus::Completed,
                    sha256: Some(sha256),
                    ..s[id].info
                },
                ..s[id]
            },
        ),
        set_status_spec(s, id, DownloadStatus::Cancelled) == s.insert(
            id,
            EntryView { info: DownloadInfoView { status: DownloadStatus::Cancelled, ..s[id].info }, ..s[id] },
        ),
{
}

/// Updates of an unknown id change nothing.
pub proof fn lemma_unknown_id_unchanged(s: Map<u128, EntryView>, id: u128, downloaded: u64, error: Seq<char>)
    requires
        !s.contains_key(id),
    ensures
        pause_spec(s, id) == s,
        resume_spec(s, id) == s,
        cancel_spec(s, id) == s,
        record_progress_spec(s, id, downloaded) == s,
        fail_spec(s, id, error) == s,
        remove_spec(s, id) == s,
        resume_interrupted_spec(s, id) == s,
{
    assert(s.remove(id) =~= s);
}

} // verus!
