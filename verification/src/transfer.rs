//! What a download's transfer loop decides between network and disk work:
//! whether one more redirect may be followed and where it leads, what a
//! response status means, whether the partial file is continued, which
//! size is announced, what name the server asks for, whether to go on,
//! wait or stop, and how a record read back after a restart is recovered.

use vstd::prelude::*;
use url::{ParseError, Url};
use crate::downloads::{
    content_disposition_filename, lemma_sanitize_nonempty, parse_content_disposition_filename,
    sanitize_filename, sanitize_spec, DownloadStatus, opt_str_view,
};
use crate::download_registry::{
    cancel_spec, fresh_entry, has_id, ids_match_keys, insert_spec, lemma_cancel_keeps_record,
    lemma_map_entry_frame, lookup, set_status_spec, status_entry, DownloadInfo, DownloadInfoView,
    DownloadRegistry, EntryView,
};
use crate::numbers::{nat_decimal, parse_u64, parse_u64_spec, push_u64};
use crate::text::{chars_of, push_str, string_from_chars};

verus! {

#[verifier::external_type_specification]
#[verifier::external_body]
pub struct ExParseError(ParseError);

/// Most redirects followed for one download.
pub const MAX_REDIRECTS: usize = 10;

/// `206 Partial Content`: the server honoured the byte range asked for.
pub const PARTIAL_CONTENT: u16 = 206;

/// Why a transfer ends without a file.
#[derive(Debug)]
pub enum TransferError {
    TooManyRedirects,
    MissingLocation,
    InvalidLocation(ParseError),
    Status(u16),
}

/// The reason phrase that the `http` crate's status table gives `code`.
pub uninterp spec fn canonical_reason(code: u16) -> Option<Seq<char>>;

/// Calls `http::StatusCode::canonical_reason` on the status `code` (valid
/// status codes are 100 to 999); the phrase is named.
#[verifier::external_body]
fn status_reason(code: u16) -> (r: Option<&'static str>)
    requires
        100 <= code <= 999,
    ensures
        opt_str_view(r) == canonical_reason(code),
{
    match http::StatusCode::from_u16(code) {
        Ok(status) => status.canonical_reason(),
        Err(_) => None,
    }
}

/// The text that `url::ParseError`'s `Display` writes for `error`: a fixed
/// phrase for each kind of parse error.
pub uninterp spec fn parse_error_message(error: ParseError) -> Seq<char>;

/// Calls `ParseError`'s `Display`; the text is named.
#[verifier::external_body]
fn parse_error_text(error: &ParseError) -> (r: String)
    ensures
        r@ == parse_error_message(*error),
{
    error.to_string()
}

pub const TOO_MANY_REDIRECTS_MESSAGE: &'static str = "too many redirects";
pub const MISSING_LOCATION_MESSAGE: &'static str = "redirect response has no Location header";
pub const UNKNOWN_STATUS_REASON: &'static str = "<unknown status code>";

/// `HTTP 404 Not Found`: the status as `http::StatusCode` displays it.
pub open spec fn status_message(code: u16) -> Seq<char> {
    "HTTP "@ + nat_decimal(code as nat) + " "@ + match canonical_reason(code) {
        Some(reason) => reason,
        None => UNKNOWN_STATUS_REASON@,
    }
}

impl TransferError {
    /// The error as text. A status outside 100 to 999, which no response
    /// carries, is written as its number alone.
    pub fn message(&self) -> (r: String)
        ensures
            *self is TooManyRedirects ==> r@ == TOO_MANY_REDIRECTS_MESSAGE@,
            *self is MissingLocation ==> r@ == MISSING_LOCATION_MESSAGE@,
            *self matches TransferError::InvalidLocation(e) ==> r@ == parse_error_message(e),
            *self matches TransferError::Status(code) ==> (100 <= code <= 999 ==> r@ == status_message(code)),
    {
        match self {
            TransferError::TooManyRedirects => TOO_MANY_REDIRECTS_MESSAGE.to_owned(),
            TransferError::MissingLocation => MISSING_LOCATION_MESSAGE.to_owned(),
            TransferError::InvalidLocation(e) => parse_error_text(e),
            TransferError::Status(code) => {
                let mut out: Vec<char> = Vec::new();
                push_str(&mut out, "HTTP ");
                push_u64(&mut out, *code as u64);
                if 100 <= *code && *code <= 999 {
                    push_str(&mut out, " ");
                    match status_reason(*code) {
                        Some(reason) => push_str(&mut out, reason),
                        None => push_str(&mut out, UNKNOWN_STATUS_REASON),
                    }
                    assert(out@ =~= status_message(*code));
                }
                string_from_chars(out.as_slice())
            },
        }
    }
}

/// Another request may be made after `redirects` redirects.
pub open spec fn redirect_allowed_spec(redirects: usize) -> bool {
    redirects <= MAX_REDIRECTS
}

/// Whether the loop may send another request after `redirects` redirects.
pub fn redirect_allowed(redirects: usize) -> (r: bool)
    ensures
        r == redirect_allowed_spec(redirects),
{
    redirects <= MAX_REDIRECTS
}

/// The three kinds of response the transfer tells apart.
#[derive(Clone, Copy, Debug, PartialEq, Eq, Structural)]
pub enum ResponseClass {
    Redirect,
    Success,
    Failure,
}

/// `3xx` redirects, `2xx` succeeds, anything else fails.
pub open spec fn classify_status_spec(status: u16) -> ResponseClass {
    if 300 <= status < 400 {
        ResponseClass::Redirect
    } else if 200 <= status < 300 {
        ResponseClass::Success
    } else {
        ResponseClass::Failure
    }
}

/// What a response status means for the transfer.
pub fn classify_status(status: u16) -> (r: ResponseClass)
    ensures
        r == classify_status_spec(status),
{
    if 300 <= status && status < 400 {
        ResponseClass::Redirect
    } else if 200 <= status && status < 300 {
        ResponseClass::Success
    } else {
        ResponseClass::Failure
    }
}

/// What `Url::join` gives for `reference` resolved against `base`.
pub uninterp spec fn joined_url(base: Url, reference: Seq<char>) -> Result<Url, ParseError>;

/// What `Url::parse` gives for `text`.
pub uninterp spec fn parsed_url(text: Seq<char>) -> Result<Url, ParseError>;

/// Calls `Url::join`, which resolves `reference` against `base` as a
/// browser resolves a link, or gives the parse error; the outcome is named.
#[verifier::external_body]
fn join_url(base: &Url, reference: &str) -> (r: Result<Url, ParseError>)
    ensures
        r == joined_url(*base, reference@),
{
    base.join(reference)
}

/// Where a redirect leads: no `Location` header is an error; otherwise the
/// location resolved against the current URL, or its parse error.
pub fn follow_redirect(current: &Url, location: Option<&str>) -> (r: Result<Url, TransferError>)
    ensures
        match location {
            None => r matches Err(TransferError::MissingLocation),
            Some(text) => match joined_url(*current, text@) {
                Ok(next) => r == Ok::<Url, TransferError>(next),
                Err(e) => r == Err::<Url, TransferError>(TransferError::InvalidLocation(e)),
            },
        },
{
    match location {
        None => Err(TransferError::MissingLocation),
        Some(text) => match join_url(current, text) {
            Ok(next) => Ok(next),
            Err(e) => Err(TransferError::InvalidLocation(e)),
        },
    }
}

/// Calls `Url::parse`, which parses an absolute URL or gives the parse
/// error; the outcome is named.
#[verifier::external_body]
fn parse_url(text: &str) -> (r: Result<Url, ParseError>)
    ensures
        r == parsed_url(text@),
{
    Url::parse(text)
}

/// Where a transfer is: the URL to request next and how many redirects led
/// there.
pub struct RedirectState {
    url: Url,
    redirects: usize,
}

impl RedirectState {
    /// Redirects followed so far.
    pub closed spec fn redirects(&self) -> usize {
        self.redirects
    }

    /// The URL to request next.
    pub closed spec fn current_url(&self) -> Url {
        self.url
    }

    /// A transfer of the stored URL text, before any request: it starts at
    /// the URL the text parses to, with no redirect counted, and gives the
    /// parse error otherwise.
    pub fn start(url_text: &str) -> (r: Result<RedirectState, ParseError>)
        ensures
            match parsed_url(url_text@) {
                Ok(u) => r matches Ok(state) && state.current_url() == u && state.redirects() == 0,
                Err(e) => r matches Err(e2) && e2 == e,
            },
    {
        match parse_url(url_text) {
            Ok(url) => Ok(RedirectState { url, redirects: 0 }),
            Err(e) => Err(e),
        }
    }

    /// The URL to request next.
    pub fn url(&self) -> (r: &Url)
        ensures
            *r == self.current_url(),
    {
        &self.url
    }

    /// Whether another request may be sent.
    pub fn may_request(&self) -> (r: bool)
        ensures
            r == redirect_allowed_spec(self.redirects()),
    {
        redirect_allowed(self.redirects)
    }

    /// Follow a redirect response: the next URL is its `Location` resolved
    /// against the current one, and one more redirect is counted. On an
    /// error nothing changes. Only a request that `may_request` allowed can
    /// get a redirect response.
    pub fn follow(&mut self, location: Option<&str>) -> (r: Result<(), TransferError>)
        requires
            redirect_allowed_spec(old(self).redirects()),
        ensures
            r is Ok ==> final(self).redirects() == old(self).redirects() + 1,
            r is Err ==> final(self).redirects() == old(self).redirects(),
            r is Err ==> final(self).current_url() == old(self).current_url(),
            match location {
                None => r matches Err(TransferError::MissingLocation),
                Some(text) => match joined_url(old(self).current_url(), text@) {
                    Ok(next) => r is Ok && final(self).current_url() == next,
                    Err(e) => r matches Err(TransferError::InvalidLocation(e2)) && e2 == e,
                },
            },
    {
        match follow_redirect(&self.url, location) {
            Ok(next) => {
                self.url = next;
                self.redirects = self.redirects + 1;
                Ok(())
            },
            Err(e) => Err(e),
        }
    }
}

/// How a successful response is written.
#[derive(Clone, Copy, Debug, PartialEq, Eq)]
pub struct ReceivePlan {
    /// Continue the partial file instead of starting it again.
    pub append: bool,
    /// The bytes the file holds before the body is written: what is on disk
    /// when continuing, nothing after a clean restart.
    pub start_bytes: u64,
    /// The size announced, counting what the file already holds.
    pub total_bytes: Option<u64>,
}

/// `a + b`, or `u64::MAX` when that does not fit.
pub open spec fn saturating_add_u64(a: u64, b: u64) -> u64 {
    if a + b > u64::MAX {
        u64::MAX
    } else {
        (a + b) as u64
    }
}

/// The partial file is continued only when something is on disk and the
/// server answered the range request with `206`; any other answer starts
/// the file again from nothing. The announced size is `Content-Length`
/// plus what the file keeps.
pub open spec fn receive_plan_spec(status: u16, existing: u64, content_length: Option<Seq<char>>) -> ReceivePlan {
    let append = existing > 0 && status == PARTIAL_CONTENT;
    let start: u64 = if append { existing } else { 0 };
    ReceivePlan {
        append,
        start_bytes: start,
        total_bytes: match content_length {
            Some(text) => match parse_u64_spec(text) {
                Some(v) => Some(saturating_add_u64(v, start)),
                None => None,
            },
            None => None,
        },
    }
}

/// How to write a successful response, given its status, the bytes
/// already in the partial file and the `Content-Length` header's text.
pub fn plan_receive(status: u16, existing: u64, content_length: Option<&str>) -> (r: ReceivePlan)
    ensures
        r == receive_plan_spec(status, existing, opt_str_view(content_length)),
{
    let append = existing > 0 && status == PARTIAL_CONTENT;
    let start_bytes: u64 = if append { existing } else { 0 };
    let total_bytes = match content_length {
        Some(text) => {
            let chars = chars_of(text);
            match parse_u64(chars.as_slice()) {
                Some(v) => Some(v.saturating_add(start_bytes)),
                None => None,
            }
        },
        None => None,
    };
    ReceivePlan { append, start_bytes, total_bytes }
}

/// The name a `Content-Disposition` header asks for, made safe.
pub open spec fn disposition_name_spec(header: Option<Seq<char>>) -> Option<Seq<char>> {
    match header {
        Some(h) => match content_disposition_filename(h) {
            Some(name) => if sanitize_spec(name).len() > 0 {
                Some(sanitize_spec(name))
            } else {
                None
            },
            None => None,
        },
        None => None,
    }
}

/// The file name a response's `Content-Disposition` header asks for, made
/// safe; `None` when there is no usable name.
pub fn disposition_filename(header: Option<&str>) -> (r: Option<String>)
    ensures
        opt_string_view(r) == disposition_name_spec(opt_str_view(header)),
{
    match header {
        None => None,
        Some(h) => match parse_content_disposition_filename(h) {
            None => None,
            Some(name) => {
                proof {
                    lemma_sanitize_nonempty(name@);
                }
                Some(sanitize_filename(name.as_str()))
            },
        },
    }
}

pub open spec fn opt_string_view(o: Option<String>) -> Option<Seq<char>> {
    match o {
        Some(s) => Some(s@),
        None => None,
    }
}

/// What the transfer does before writing the next chunk.
#[derive(Clone, Copy, Debug, PartialEq, Eq, Structural)]
pub enum TransferGate {
    /// Cancelled: drop the partial file and stop.
    Stop,
    /// Paused: wait and ask again.
    Wait,
    /// Write the chunk.
    Go,
}

/// Cancellation wins over a pause; a pause holds the transfer.
pub open spec fn transfer_gate_spec(paused: bool, cancelled: bool) -> TransferGate {
    if cancelled {
        TransferGate::Stop
    } else if paused {
        TransferGate::Wait
    } else {
        TransferGate::Go
    }
}

/// Whether to write, wait or stop, given the download's requests.
pub fn transfer_gate(paused: bool, cancelled: bool) -> (r: TransferGate)
    ensures
        r == transfer_gate_spec(paused, cancelled),
{
    if cancelled {
        TransferGate::Stop
    } else if paused {
        TransferGate::Wait
    } else {
        TransferGate::Go
    }
}

/// A download that was still running, queued or paused when the session
/// ended.
pub open spec fn was_interrupted(status: DownloadStatus) -> bool {
    status == DownloadStatus::Downloading || status == DownloadStatus::Queued || status
        == DownloadStatus::Paused
}

/// The error given to an interrupted download whose partial file is gone.
pub const MISSING_PARTIAL_ERROR: &'static str = "Interrupted download has no partial file";

/// A record read back from a previous session: an interrupted download
/// becomes `Paused` at the size of its partial file when that file exists
/// (`partial_len`), and `Failed` when it does not; others stay as they were.
pub open spec fn recover_spec(info: DownloadInfoView, partial_len: Option<u64>) -> DownloadInfoView {
    if was_interrupted(info.status) {
        match partial_len {
            Some(n) => DownloadInfoView { status: DownloadStatus::Paused, downloaded_bytes: n, ..info },
            None => DownloadInfoView {
                status: DownloadStatus::Failed,
                error: Some(MISSING_PARTIAL_ERROR@),
                ..info
            },
        }
    } else {
        info
    }
}

/// Recover one record read back from a previous session.
pub fn recover_interrupted(info: DownloadInfo, partial_len: Option<u64>) -> (r: DownloadInfo)
    ensures
        r@ == recover_spec(info@, partial_len),
{
    let mut info = info;
    if info.status == DownloadStatus::Downloading || info.status == DownloadStatus::Queued
        || info.status == DownloadStatus::Paused {
        match partial_len {
            Some(n) => {
                info.status = DownloadStatus::Paused;
                info.downloaded_bytes = n;
            },
            None => {
                info.status = DownloadStatus::Failed;
                info.error = Some(MISSING_PARTIAL_ERROR.to_owned());
            },
        }
    }
    info
}

/// Put a record read back from a previous session into the table,
/// recovered first.
pub fn restore(registry: &mut DownloadRegistry, info: DownloadInfo, partial_len: Option<u64>)
    requires
        old(registry).wf(),
    ensures
        final(registry).wf(),
        final(registry)@ == insert_spec(old(registry)@, recover_spec(info@, partial_len)),
{
    let recovered = recover_interrupted(info, partial_len);
    registry.insert(recovered);
}

/// The table after restoring the records `infos` in order, `lens[k]`
/// being the size of the partial file of `infos[k]` when it exists.
pub open spec fn restored(s: Map<u128, EntryView>, infos: Seq<DownloadInfoView>, lens: Seq<Option<u64>>) -> Map<
    u128,
    EntryView,
>
    decreases infos.len(),
{
    if infos.len() == 0 {
        s
    } else {
        let k = infos.len() - 1;
        insert_spec(
            restored(s, infos.drop_last(), lens),
            recover_spec(infos[k], if k < lens.len() { lens[k] } else { None }),
        )
    }
}

pub open spec fn info_views(v: Seq<DownloadInfo>) -> Seq<DownloadInfoView> {
    v.map_values(|i: DownloadInfo| i@)
}

/// Restore every record read back from a previous session, in order;
/// `partial_lens[k]` is the size of the partial file of `infos[k]`, if it
/// exists.
pub fn restore_all(registry: &mut DownloadRegistry, infos: Vec<DownloadInfo>, partial_lens: &Vec<Option<u64>>)
    requires
        old(registry).wf(),
    ensures
        final(registry).wf(),
        final(registry)@ == restored(old(registry)@, info_views(infos@), partial_lens@),
{
    let ghost all = info_views(infos@);
    let ghost start = registry@;
    let mut k: usize = 0;
    assert(all.take(0) =~= Seq::<DownloadInfoView>::empty());
    while k < infos.len()
        invariant
            registry.wf(),
            k <= infos@.len(),
            all == info_views(infos@),
            registry@ == restored(start, all.take(k as int), partial_lens@),
        decreases infos@.len() - k,
    {
        let len: Option<u64> = if k < partial_lens.len() { partial_lens[k] } else { None };
        let info = infos[k].duplicate();
        restore(registry, info, len);
        proof {
            assert(all.take(k + 1).drop_last() =~= all.take(k as int));
            assert(all.take(k + 1)[k as int] == infos@[k as int]@);
        }
        k = k + 1;
    }
    assert(all.take(infos@.len() as int) =~= all);
}

/// The partial-file size given for record `k`, if any.
pub open spec fn len_at(lens: Seq<Option<u64>>, k: int) -> Option<u64> {
    if 0 <= k < lens.len() {
        lens[k]
    } else {
        None
    }
}

/// No two saved records share an id.
pub open spec fn distinct_info_ids(infos: Seq<DownloadInfoView>) -> bool {
    forall|i: int, j: int|
        0 <= i < infos.len() && 0 <= j < infos.len() && (#[trigger] infos[i]).id == (#[trigger] infos[j]).id
            ==> i == j
}

/// Reading a saved table back into an empty one gives every saved record
/// under its id, each recovered (finished ones as they were, interrupted
/// ones paused at the size of their partial file or failed), and no other
/// row.
pub proof fn lemma_restore_round_trip(infos: Seq<DownloadInfoView>, lens: Seq<Option<u64>>)
    requires
        distinct_info_ids(infos),
    ensures
        forall|k: int|
            0 <= k < infos.len() ==> lookup(restored(Map::empty(), infos, lens), #[trigger] infos[k].id) == Some(
                fresh_entry(recover_spec(infos[k], len_at(lens, k))),
            ),
        forall|id: u128|
            #[trigger] restored(Map::empty(), infos, lens).contains_key(id) ==> exists|k: int|
                0 <= k < infos.len() && infos[k].id == id,
    decreases infos.len(),
{
    if infos.len() > 0 {
        let last = infos.len() - 1;
        let pre = infos.drop_last();
        assert(distinct_info_ids(pre)) by {
            assert forall|i: int, j: int|
                0 <= i < pre.len() && 0 <= j < pre.len() && (#[trigger] pre[i]).id == (#[trigger] pre[j]).id implies i
                == j by {
                assert(pre[i] == infos[i] && pre[j] == infos[j]);
            }
        }
        lemma_restore_round_trip(pre, lens);
        let t = restored(Map::empty(), pre, lens);
        let rec = recover_spec(infos[last], if last < lens.len() { lens[last] } else { None });
        assert(rec.id == infos[last].id);
        assert(len_at(lens, last) == (if last < lens.len() { lens[last] } else { None }));
        assert forall|k: int| 0 <= k < infos.len() implies lookup(
            restored(Map::empty(), infos, lens),
            #[trigger] infos[k].id,
        ) == Some(fresh_entry(recover_spec(infos[k], len_at(lens, k)))) by {
            if k < last {
                assert(pre[k] == infos[k]);
                assert(lookup(t, pre[k].id) == Some(fresh_entry(recover_spec(pre[k], len_at(lens, k)))));
            }
        }
        assert forall|id: u128| #[trigger] restored(Map::empty(), infos, lens).contains_key(id) implies exists|k: int|
            0 <= k < infos.len() && infos[k].id == id by {
            if id != rec.id {
                assert(t.contains_key(id));
                let k = choose|k: int| 0 <= k < pre.len() && pre[k].id == id;
                assert(pre[k] == infos[k]);
            }
        }
    }
}

/// A cancel request stops the transfer before its next chunk, and the
/// record then reads `Cancelled`.
pub proof fn lemma_cancel_stops_transfer(s: Map<u128, EntryView>, id: u128)
    requires
        ids_match_keys(s),
        has_id(s, id),
    ensures
        transfer_gate_spec(lookup(cancel_spec(s, id), id)->0.paused, lookup(cancel_spec(s, id), id)->0.cancelled)
            == TransferGate::Stop,
        lookup(set_status_spec(cancel_spec(s, id), id, DownloadStatus::Cancelled), id)->0.info.status
            == DownloadStatus::Cancelled,
{
    lemma_cancel_keeps_record(s, id);
    let c = cancel_spec(s, id);
    lemma_map_entry_frame(s, id, |e: EntryView| crate::download_registry::cancel_requested_entry(e), id);
    lemma_map_entry_frame(c, id, |e: EntryView| status_entry(e, DownloadStatus::Cancelled), id);
}

/// The partial file is continued only after a `206` answer to a range
/// request; otherwise the count starts again from nothing. An announced
/// size counts what the file keeps.
pub proof fn lemma_receive_plan(status: u16, existing: u64, content_length: Option<Seq<char>>)
    ensures
        receive_plan_spec(status, existing, content_length).append ==> status == PARTIAL_CONTENT && existing > 0,
        !receive_plan_spec(status, existing, content_length).append ==> receive_plan_spec(
            status,
            existing,
            content_length,
        ).start_bytes == 0,
        receive_plan_spec(status, existing, content_length).total_bytes matches Some(t) ==> t
            >= receive_plan_spec(status, existing, content_length).start_bytes,
{
}

/// A record read back after a restart is never left queued or running:
/// what was interrupted is paused (its partial file is there) or failed.
pub proof fn lemma_recovered_not_running(info: DownloadInfoView, partial_len: Option<u64>)
    ensures
        recover_spec(info, partial_len).status != DownloadStatus::Downloading,
        recover_spec(info, partial_len).status != DownloadStatus::Queued,
        was_interrupted(info.status) && partial_len is Some ==> recover_spec(info, partial_len).status
            == DownloadStatus::Paused,
        was_interrupted(info.status) && partial_len is None ==> recover_spec(info, partial_len).status
            == DownloadStatus::Failed,
        recover_spec(info, partial_len).id == info.id,
{
}

} // verus!
