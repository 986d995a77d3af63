//! Box art from the libretro-thumbnails project by title, handed to the UI as a
//! data URL. No ROMs or BIOS are ever downloaded.
//!
//! The host owns the on-disk cache (`<cache>/thumbnails/<system>/`) and the
//! HTTP request; this module names the cache files, builds the URL, decides
//! what a response means, and encodes the image.
use vstd::prelude::*;
use vstd::utf8::encode_utf8;
use crate::text::{chars_of, push_char, push_str, owned};
use crate::registry::{find, spec_find};
use crate::text::concat;
use crate::registry::unknown_system;

verus! {

/* Titles as file names */

/// libretro-thumbnails replaces these characters with `_` in art filenames.
pub open spec fn sanitize_char(c: char) -> char {
    if c == '&' || c == '*' || c == '/' || c == ':' || c == '`' || c == '<' || c == '>' || c == '?'
        || c == '\\' || c == '|' || c == '"' {
        '_'
    } else {
        c
    }
}

/// `title` with every reserved character replaced by `_`.
pub open spec fn spec_sanitize(title: Seq<char>) -> Seq<char> {
    title.map_values(|c: char| sanitize_char(c))
}

/// libretro-thumbnails replaces these characters with `_` in art filenames.
pub fn sanitize(title: &str) -> (r: String)
    ensures
        r@ == spec_sanitize(title@),
{
    let v = chars_of(title);
    let mut out = String::new();
    let mut i: usize = 0;
    while i < v.len()
        invariant
            i <= v.len(),
            out@ == spec_sanitize(v@.take(i as int)),
        decreases v.len() - i,
    {
        let c = v[i];
        let d = if c == '&' || c == '*' || c == '/' || c == ':' || c == '`' || c == '<' || c == '>'
            || c == '?' || c == '\\' || c == '|' || c == '"' {
            '_'
        } else {
            c
        };
        push_char(&mut out, d);
        assert(spec_sanitize(v@.take(i + 1)) =~= spec_sanitize(v@.take(i as int)).push(
            sanitize_char(v@[i as int]),
        ));
        i = i + 1;
    }
    assert(v@.take(i as int) =~= v@);
    out
}

/// `s` with every space replaced by `_` (`str::replace(' ', "_")`).
pub open spec fn spaces_to_underscores(s: Seq<char>) -> Seq<char> {
    s.map_values(|c: char| if c == ' ' { '_' } else { c })
}

fn replace_spaces(s: &str) -> (r: String)
    ensures
        r@ == spaces_to_underscores(s@),
{
    let v = chars_of(s);
    let mut out = String::new();
    let mut i: usize = 0;
    while i < v.len()
        invariant
            i <= v.len(),
            out@ == spaces_to_underscores(v@.take(i as int)),
        decreases v.len() - i,
    {
        let c = v[i];
        push_char(&mut out, if c == ' ' { '_' } else { c });
        assert(spaces_to_underscores(v@.take(i + 1)) =~= spaces_to_underscores(v@.take(i as int)).push(
            if v@[i as int] == ' ' { '_' } else { v@[i as int] },
        ));
        i = i + 1;
    }
    assert(v@.take(i as int) =~= v@);
    out
}

/* Percent-encoding */

/// Bytes that percent-encoding leaves alone: ASCII alphanumerics and `-`, `.`, `_`, `~`.
pub open spec fn unreserved_byte(b: u8) -> bool {
    (48 <= b <= 57) || (65 <= b <= 90) || (97 <= b <= 122) || b == 45 || b == 46 || b == 95 || b
        == 126
}

/// Upper-case hexadecimal digit of a value below 16.
pub open spec fn hex_upper(d: u8) -> char {
    if d < 10 {
        (48 + d) as char
    } else {
        (55 + d) as char
    }
}

/// Every byte percent-encoded (`%XY`, upper-case hex) except unreserved ones,
/// which stand for themselves.
pub open spec fn percent_encode(bytes: Seq<u8>) -> Seq<char>
    decreases bytes.len(),
{
    if bytes.len() == 0 {
        Seq::empty()
    } else {
        let b = bytes.last();
        percent_encode(bytes.drop_last()) + if unreserved_byte(b) {
            seq![b as char]
        } else {
            seq!['%', hex_upper(b >> 4), hex_upper(b & 15)]
        }
    }
}

/// URL-encodes `s` (calls `urlencoding::encode`).
///
/// Trusted: `urlencoding::encode` percent-encodes every byte of the UTF-8
/// encoding of `s` except ASCII alphanumerics and `-`, `_`, `.`, `~`, writing
/// `%` and two upper-case hex digits for each encoded byte, as its source shows.
#[verifier::external_body]
fn url_encode(s: &str) -> (r: String)
    ensures
        r@ == percent_encode(encode_utf8(s@)),
{
    urlencoding::encode(s).into_owned()
}

/* Box art requests */

/// Where the art for one title lives: cache file names and download URL.
pub struct BoxartTarget {
    /// Cache file holding the art: `<sanitized title>.png`.
    pub png_name: String,
    /// Cache marker of a known miss: `<sanitized title>.miss`.
    pub miss_name: String,
    /// The libretro-thumbnails URL of the art.
    pub url: String,
}

/// Mathematical model of a `BoxartTarget`.
pub struct BoxartTargetView {
    pub png_name: Seq<char>,
    pub miss_name: Seq<char>,
    pub url: Seq<char>,
}

impl View for BoxartTarget {
    type V = BoxartTargetView;

    open spec fn view(&self) -> BoxartTargetView {
        BoxartTargetView { png_name: self.png_name@, miss_name: self.miss_name@, url: self.url@ }
    }
}

/// The libretro-thumbnails URL of the box art named `safe` in repo `repo`.
pub open spec fn thumbnail_url(repo: Seq<char>, safe: Seq<char>) -> Seq<char> {
    "https://raw.githubusercontent.com/libretro-thumbnails/"@ + percent_encode(
        encode_utf8(spaces_to_underscores(repo)),
    ) + "/master/Named_Boxarts/"@ + percent_encode(encode_utf8(safe)) + ".png"@
}

/// Cache names and URL of the art for `title` on `system`.
pub open spec fn spec_boxart_target(system: Seq<char>, title: Seq<char>) -> Result<
    BoxartTargetView,
    Seq<char>,
> {
    match spec_find(system) {
        None => Err(unknown_system(system)),
        Some(d) => {
            let safe = spec_sanitize(title);
            Ok(
                BoxartTargetView {
                    png_name: safe + ".png"@,
                    miss_name: safe + ".miss"@,
                    url: thumbnail_url(d.thumbnail_repo, safe),
                },
            )
        },
    }
}

/// Cache names and URL of the box art for `title` on `system`.
pub fn boxart_target(system: &str, title: &str) -> (r: Result<BoxartTarget, String>)
    ensures
        match r {
            Ok(t) => spec_boxart_target(system@, title@) == Ok::<BoxartTargetView, Seq<char>>(t@),
            Err(e) => spec_boxart_target(system@, title@) == Err::<BoxartTargetView, Seq<char>>(e@),
        },
{
    let def = match find(system) {
        Some(d) => d,
        None => {
            return Err(concat("unknown system: ", system));
        },
    };
    let safe = sanitize(title);
    let png_name = concat(safe.as_str(), ".png");
    let miss_name = concat(safe.as_str(), ".miss");
    let repo = replace_spaces(def.thumbnail_repo);
    let mut url = owned("https://raw.githubusercontent.com/libretro-thumbnails/");
    push_str(&mut url, url_encode(repo.as_str()).as_str());
    push_str(&mut url, "/master/Named_Boxarts/");
    push_str(&mut url, url_encode(safe.as_str()).as_str());
    push_str(&mut url, ".png");
    Ok(BoxartTarget { png_name, miss_name, url })
}

/// The only URLs asked for are PNG box art of the libretro-thumbnails project.
pub proof fn law_boxart_urls(system: Seq<char>, title: Seq<char>)
    ensures
        spec_boxart_target(system, title) matches Ok(t) ==> t.url.take(
            "https://raw.githubusercontent.com/libretro-thumbnails/"@.len() as int,
        ) == "https://raw.githubusercontent.com/libretro-thumbnails/"@ && t.url.skip(
            t.url.len() - ".png"@.len(),
        ) == ".png"@,
{
    if let Ok(t) = spec_boxart_target(system, title) {
        let p = "https://raw.githubusercontent.com/libretro-thumbnails/"@;
        let d = spec_find(system)->0;
        let safe = spec_sanitize(title);
        let rest = percent_encode(encode_utf8(spaces_to_underscores(d.thumbnail_repo)))
            + "/master/Named_Boxarts/"@ + percent_encode(encode_utf8(safe));
        assert(t.url =~= p + (rest + ".png"@));
        assert(t.url.take(p.len() as int) =~= p);
        assert(t.url =~= (p + rest) + ".png"@);
        assert(t.url.skip(t.url.len() - ".png"@.len()) =~= ".png"@);
    }
}

/// What the cache says about one title's art.
#[derive(Clone, Copy, Debug, PartialEq, Eq, Structural)]
pub enum CacheDecision {
    /// The art is cached: serve the cached PNG.
    UseCachedArt,
    /// A miss is recorded: there is no art, and the network is not asked again.
    KnownMiss,
    /// Nothing cached: download the art.
    Download,
}

/// Cached hits win over recorded misses; only an empty cache downloads.
pub open spec fn spec_cache_decision(png_is_file: bool, miss_is_file: bool) -> CacheDecision {
    if png_is_file {
        CacheDecision::UseCachedArt
    } else if miss_is_file {
        CacheDecision::KnownMiss
    } else {
        CacheDecision::Download
    }
}

/// What to do given whether the cached PNG and the miss marker exist.
pub fn cache_decision(png_is_file: bool, miss_is_file: bool) -> (r: CacheDecision)
    ensures
        r == spec_cache_decision(png_is_file, miss_is_file),
{
    if png_is_file {
        CacheDecision::UseCachedArt
    } else if miss_is_file {
        CacheDecision::KnownMiss
    } else {
        CacheDecision::Download
    }
}

/// What a box-art HTTP response means.
pub enum FetchOutcome {
    /// Success: the body is the image.
    Body,
    /// No art for this title (404, or the request could not be made at all,
    /// e.g. offline, so the library still renders).
    NoArt,
    /// Any other status: fail with this message.
    Failed(String),
}

/// Mathematical model of a `FetchOutcome`.
pub enum FetchOutcomeView {
    Body,
    NoArt,
    Failed(Seq<char>),
}

impl View for FetchOutcome {
    type V = FetchOutcomeView;

    open spec fn view(&self) -> FetchOutcomeView {
        match self {
            FetchOutcome::Body => FetchOutcomeView::Body,
            FetchOutcome::NoArt => FetchOutcomeView::NoArt,
            FetchOutcome::Failed(m) => FetchOutcomeView::Failed(m@),
        }
    }
}

/// The meaning of a response with status `status` (`None` when the request
/// failed before any response); `status_text` is how the status displays.
pub open spec fn spec_fetch_outcome(status: Option<u16>, status_text: Seq<char>) -> FetchOutcomeView {
    match status {
        None => FetchOutcomeView::NoArt,
        Some(code) => if 200 <= code <= 299 {
            FetchOutcomeView::Body
        } else if code == 404 {
            FetchOutcomeView::NoArt
        } else {
            FetchOutcomeView::Failed("box art request failed: HTTP "@ + status_text)
        },
    }
}

/// GET outcome: the body on success, no art on 404 or when offline, an error
/// on other statuses.
pub fn fetch_outcome(status: Option<u16>, status_text: &str) -> (r: FetchOutcome)
    ensures
        r@ == spec_fetch_outcome(status, status_text@),
{
    match status {
        None => FetchOutcome::NoArt,
        Some(code) => {
            if 200 <= code && code <= 299 {
                FetchOutcome::Body
            } else if code == 404 {
                FetchOutcome::NoArt
            } else {
                FetchOutcome::Failed(concat("box art request failed: HTTP ", status_text))
            }
        },
    }
}

/// How the download of missing art went.
pub enum Download {
    /// The response body: the image.
    Art(Vec<u8>),
    /// There is no art for this title (or the network could not be reached).
    NoArt,
    /// The request failed with this message.
    Failed(String),
}

/// Mathematical model of a `Download`.
pub enum DownloadView {
    Art(Seq<u8>),
    NoArt,
    Failed(Seq<char>),
}

impl View for Download {
    type V = DownloadView;

    open spec fn view(&self) -> DownloadView {
        match self {
            Download::Art(b) => DownloadView::Art(b@),
            Download::NoArt => DownloadView::NoArt,
            Download::Failed(m) => DownloadView::Failed(m@),
        }
    }
}

/// What a download leaves in the cache.
#[derive(Clone, Copy, Debug, PartialEq, Eq, Structural)]
pub enum CacheWrite {
    /// Store the downloaded image as the title's PNG.
    Png,
    /// Record that the title has no art.
    Miss,
    /// Store nothing.
    Nothing,
}

/// Art is stored, a miss is recorded, a failure leaves the cache alone.
pub open spec fn spec_cache_write(d: DownloadView) -> CacheWrite {
    match d {
        DownloadView::Art(_) => CacheWrite::Png,
        DownloadView::NoArt => CacheWrite::Miss,
        DownloadView::Failed(_) => CacheWrite::Nothing,
    }
}

/// What to store in the cache after a download.
pub fn cache_write_for(d: &Download) -> (w: CacheWrite)
    ensures
        w == spec_cache_write(d@),
{
    match d {
        Download::Art(_) => CacheWrite::Png,
        Download::NoArt => CacheWrite::Miss,
        Download::Failed(_) => CacheWrite::Nothing,
    }
}

/// The view of a box-art answer.
pub open spec fn art_result_view(r: Result<Option<String>, String>) -> Result<
    Option<Seq<char>>,
    Seq<char>,
> {
    match r {
        Ok(Some(u)) => Ok(Some(u@)),
        Ok(None) => Ok(None),
        Err(e) => Err(e@),
    }
}

/// The view of the result of a file operation that yields nothing.
pub open spec fn unit_result_view(r: Result<(), String>) -> Result<(), Seq<char>> {
    match r {
        Ok(()) => Ok(()),
        Err(e) => Err(e@),
    }
}

/// The answer after a download whose PNG write (when there was one) went as
/// `png_write` says: the image's data URL, no art, or the error.
pub open spec fn spec_download_result(d: DownloadView, png_write: Result<(), Seq<char>>) -> Result<
    Option<Seq<char>>,
    Seq<char>,
> {
    match d {
        DownloadView::Art(b) => match png_write {
            Ok(()) => Ok(Some(spec_data_url(b))),
            Err(e) => Err("write cache: "@ + e),
        },
        DownloadView::NoArt => Ok(None),
        DownloadView::Failed(m) => Err(m),
    }
}

/// The answer after a download and the cache write it asked for.
pub fn download_result(d: &Download, png_write: &Result<(), String>) -> (r: Result<
    Option<String>,
    String,
>)
    ensures
        art_result_view(r) == spec_download_result(d@, unit_result_view(*png_write)),
{
    match d {
        Download::Art(b) => match png_write {
            Ok(()) => Ok(Some(to_data_url(b.as_slice()))),
            Err(e) => Err(concat("write cache: ", e.as_str())),
        },
        Download::NoArt => Ok(None),
        Download::Failed(m) => Err(m.clone()),
    }
}

/// The answer from a cached PNG, read as `read` says.
pub open spec fn spec_cached_result(read: Result<Seq<u8>, Seq<char>>) -> Result<
    Option<Seq<char>>,
    Seq<char>,
> {
    match read {
        Ok(b) => Ok(Some(spec_data_url(b))),
        Err(e) => Err("read cache: "@ + e),
    }
}

/// The answer from a cached PNG: its data URL, or why it could not be read.
pub fn cached_art_result(read: &Result<Vec<u8>, String>) -> (r: Result<Option<String>, String>)
    ensures
        art_result_view(r) == spec_cached_result(
            match read {
                Ok(b) => Ok(b@),
                Err(e) => Err(e@),
            },
        ),
{
    match read {
        Ok(b) => Ok(Some(to_data_url(b.as_slice()))),
        Err(e) => Err(concat("read cache: ", e.as_str())),
    }
}

/// What the cache holds for one title: the stored PNG, if any, and whether a
/// miss is recorded.
pub struct ArtCache {
    pub png: Option<Seq<u8>>,
    pub miss: bool,
}

/// One box-art lookup against cache `c`, reading cached files successfully:
/// its answer, the cache afterwards, and whether it went to the network. When
/// it downloads, `d` is how the download went, `png_write` how storing the
/// image went and `miss_written` whether recording a miss worked.
pub open spec fn lookup(
    c: ArtCache,
    d: DownloadView,
    png_write: Result<(), Seq<char>>,
    miss_written: bool,
) -> (Result<Option<Seq<char>>, Seq<char>>, ArtCache, bool) {
    match spec_cache_decision(c.png is Some, c.miss) {
        CacheDecision::UseCachedArt => (spec_cached_result(Ok(c.png->0)), c, false),
        CacheDecision::KnownMiss => (Ok(None), c, false),
        CacheDecision::Download => {
            let after = match spec_cache_write(d) {
                CacheWrite::Png => if png_write is Ok {
                    ArtCache { png: Some(d->Art_0), miss: c.miss }
                } else {
                    c
                },
                CacheWrite::Miss => if miss_written {
                    ArtCache { png: c.png, miss: true }
                } else {
                    c
                },
                CacheWrite::Nothing => c,
            };
            (spec_download_result(d, png_write), after, true)
        },
    }
}

/// Repeat lookups work offline: after a lookup that answered `Ok` and whose
/// cache writes succeeded, looking the same title up again gives the same
/// answer from the cache, leaves the cache as it is, and makes no request,
/// whatever the network would say.
pub proof fn law_repeat_lookup_offline(
    c: ArtCache,
    d: DownloadView,
    d2: DownloadView,
    png_write2: Result<(), Seq<char>>,
    miss_written2: bool,
)
    requires
        lookup(c, d, Ok(()), true).0 is Ok,
    ensures
        lookup(lookup(c, d, Ok(()), true).1, d2, png_write2, miss_written2) == (
            lookup(c, d, Ok(()), true).0,
            lookup(c, d, Ok(()), true).1,
            false,
        ),
{
}

/* The lookup, step by step */

/// Where a box-art lookup stands.
pub enum ArtState {
    /// Nothing done yet.
    Start,
    /// Waiting for the cached PNG's bytes.
    AwaitRead,
    /// Waiting for the download.
    AwaitFetch,
    /// Waiting for the downloaded image to be stored; this data URL is the
    /// answer once it is.
    AwaitPngWrite(String),
    /// Waiting for the miss to be recorded.
    AwaitMissWrite,
    /// The lookup has answered.
    Done,
}

/// What the host reports back to a box-art lookup.
pub enum ArtEvent {
    /// Whether the cached PNG and the miss marker exist.
    Probed { png_is_file: bool, miss_is_file: bool },
    /// The cached PNG's bytes, or why they could not be read.
    PngRead(Result<Vec<u8>, String>),
    /// How the download went.
    Fetched(Download),
    /// How storing the image went.
    PngWritten(Result<(), String>),
    /// The miss marker was written (or writing it failed, which is ignored).
    MissWritten,
}

/// What a box-art lookup asks the host to do next.
pub enum ArtAction {
    /// Read the cached PNG.
    ReadPng,
    /// Download the image from the target URL.
    Fetch,
    /// Store these bytes as the title's PNG.
    WritePng(Vec<u8>),
    /// Record that the title has no art.
    WriteMiss,
    /// The lookup's answer: the image's data URL, no art, or an error.
    Answer(Result<Option<String>, String>),
}

/// Mathematical model of an `ArtState`.
pub enum ArtStateView {
    Start,
    AwaitRead,
    AwaitFetch,
    AwaitPngWrite(Seq<char>),
    AwaitMissWrite,
    Done,
}

/// Mathematical model of an `ArtEvent`.
pub enum ArtEventView {
    Probed { png_is_file: bool, miss_is_file: bool },
    PngRead(Result<Seq<u8>, Seq<char>>),
    Fetched(DownloadView),
    PngWritten(Result<(), Seq<char>>),
    MissWritten,
}

/// Mathematical model of an `ArtAction`.
pub enum ArtActionView {
    ReadPng,
    Fetch,
    WritePng(Seq<u8>),
    WriteMiss,
    Answer(Result<Option<Seq<char>>, Seq<char>>),
}

impl View for ArtState {
    type V = ArtStateView;

    open spec fn view(&self) -> ArtStateView {
        match self {
            ArtState::Start => ArtStateView::Start,
            ArtState::AwaitRead => ArtStateView::AwaitRead,
            ArtState::AwaitFetch => ArtStateView::AwaitFetch,
            ArtState::AwaitPngWrite(u) => ArtStateView::AwaitPngWrite(u@),
            ArtState::AwaitMissWrite => ArtStateView::AwaitMissWrite,
            ArtState::Done => ArtStateView::Done,
        }
    }
}

impl View for ArtEvent {
    type V = ArtEventView;

    open spec fn view(&self) -> ArtEventView {
        match self {
            ArtEvent::Probed { png_is_file, miss_is_file } => ArtEventView::Probed {
                png_is_file: *png_is_file,
                miss_is_file: *miss_is_file,
            },
            ArtEvent::PngRead(Ok(b)) => ArtEventView::PngRead(Ok(b@)),
            ArtEvent::PngRead(Err(e)) => ArtEventView::PngRead(Err(e@)),
            ArtEvent::Fetched(d) => ArtEventView::Fetched(d@),
            ArtEvent::PngWritten(w) => ArtEventView::PngWritten(unit_result_view(*w)),
            ArtEvent::MissWritten => ArtEventView::MissWritten,
        }
    }
}

impl View for ArtAction {
    type V = ArtActionView;

    open spec fn view(&self) -> ArtActionView {
        match self {
            ArtAction::ReadPng => ArtActionView::ReadPng,
            ArtAction::Fetch => ArtActionView::Fetch,
            ArtAction::WritePng(b) => ArtActionView::WritePng(b@),
            ArtAction::WriteMiss => ArtActionView::WriteMiss,
            ArtAction::Answer(r) => ArtActionView::Answer(art_result_view(*r)),
        }
    }
}

/// The error a lookup answers with when the host reports something the lookup
/// did not ask for.
pub open spec fn out_of_order_msg() -> Seq<char> {
    "box art lookup: unexpected step"@
}

/// One step of a box-art lookup: from the state and what the host reports,
/// the next state and what the host does next. Probing decides by
/// [`spec_cache_decision`]; a cached PNG is read and answered; a download is
/// stored as the PNG (answering its data URL once stored), recorded as a miss
/// (answering no art), or answered with its error.
pub open spec fn spec_art_step(s: ArtStateView, e: ArtEventView) -> (ArtStateView, ArtActionView) {
    match (s, e) {
        (ArtStateView::Start, ArtEventView::Probed { png_is_file, miss_is_file }) => match spec_cache_decision(
            png_is_file,
            miss_is_file,
        ) {
            CacheDecision::UseCachedArt => (ArtStateView::AwaitRead, ArtActionView::ReadPng),
            CacheDecision::KnownMiss => (ArtStateView::Done, ArtActionView::Answer(Ok(None))),
            CacheDecision::Download => (ArtStateView::AwaitFetch, ArtActionView::Fetch),
        },
        (ArtStateView::AwaitRead, ArtEventView::PngRead(r)) => (
            ArtStateView::Done,
            ArtActionView::Answer(spec_cached_result(r)),
        ),
        (ArtStateView::AwaitFetch, ArtEventView::Fetched(d)) => match d {
            DownloadView::Art(b) => (
                ArtStateView::AwaitPngWrite(spec_data_url(b)),
                ArtActionView::WritePng(b),
            ),
            DownloadView::NoArt => (ArtStateView::AwaitMissWrite, ArtActionView::WriteMiss),
            DownloadView::Failed(m) => (ArtStateView::Done, ArtActionView::Answer(Err(m))),
        },
        (ArtStateView::AwaitPngWrite(url), ArtEventView::PngWritten(w)) => (
            ArtStateView::Done,
            ArtActionView::Answer(
                match w {
                    Ok(()) => Ok(Some(url)),
                    Err(m) => Err("write cache: "@ + m),
                },
            ),
        ),
        (ArtStateView::AwaitMissWrite, ArtEventView::MissWritten) => (
            ArtStateView::Done,
            ArtActionView::Answer(Ok(None)),
        ),
        _ => (ArtStateView::Done, ArtActionView::Answer(Err(out_of_order_msg()))),
    }
}

/// One step of a box-art lookup.
pub fn art_step(s: ArtState, e: ArtEvent) -> (r: (ArtState, ArtAction))
    ensures
        (r.0@, r.1@) == spec_art_step(s@, e@),
{
    match (s, e) {
        (ArtState::Start, ArtEvent::Probed { png_is_file, miss_is_file }) => match cache_decision(
            png_is_file,
            miss_is_file,
        ) {
            CacheDecision::UseCachedArt => (ArtState::AwaitRead, ArtAction::ReadPng),
            CacheDecision::KnownMiss => (ArtState::Done, ArtAction::Answer(Ok(None))),
            CacheDecision::Download => (ArtState::AwaitFetch, ArtAction::Fetch),
        },
        (ArtState::AwaitRead, ArtEvent::PngRead(r)) => (ArtState::Done, ArtAction::Answer(cached_art_result(&r))),
        (ArtState::AwaitFetch, ArtEvent::Fetched(d)) => match cache_write_for(&d) {
            CacheWrite::Png => match d {
                Download::Art(b) => {
                    let url = to_data_url(b.as_slice());
                    (ArtState::AwaitPngWrite(url), ArtAction::WritePng(b))
                },
                _ => (ArtState::Done, ArtAction::Answer(Err(owned("box art lookup: unexpected step")))),
            },
            CacheWrite::Miss => (ArtState::AwaitMissWrite, ArtAction::WriteMiss),
            CacheWrite::Nothing => (ArtState::Done, ArtAction::Answer(download_result(&d, &Ok(())))),
        },
        (ArtState::AwaitPngWrite(url), ArtEvent::PngWritten(w)) => (
            ArtState::Done,
            ArtAction::Answer(
                match w {
                    Ok(()) => Ok(Some(url)),
                    Err(m) => Err(concat("write cache: ", m.as_str())),
                },
            ),
        ),
        (ArtState::AwaitMissWrite, ArtEvent::MissWritten) => (ArtState::Done, ArtAction::Answer(Ok(None))),
        _ => (ArtState::Done, ArtAction::Answer(Err(owned("box art lookup: unexpected step")))),
    }
}

/// A host that follows [`art_step`] against cache `c` (reading cached files
/// successfully), reporting the download `d`, the PNG write `png_write` and
/// the miss write `miss_written`: its answer, the cache afterwards, and
/// whether it downloaded.
pub open spec fn art_run(
    c: ArtCache,
    d: DownloadView,
    png_write: Result<(), Seq<char>>,
    miss_written: bool,
) -> (Result<Option<Seq<char>>, Seq<char>>, ArtCache, bool) {
    let (s1, a1) = spec_art_step(
        ArtStateView::Start,
        ArtEventView::Probed { png_is_file: c.png is Some, miss_is_file: c.miss },
    );
    match a1 {
        ArtActionView::Answer(r) => (r, c, false),
        ArtActionView::ReadPng => match spec_art_step(s1, ArtEventView::PngRead(Ok(c.png->0))).1 {
            ArtActionView::Answer(r) => (r, c, false),
            _ => (Err(out_of_order_msg()), c, false),
        },
        ArtActionView::Fetch => {
            let (s2, a2) = spec_art_step(s1, ArtEventView::Fetched(d));
            match a2 {
                ArtActionView::Answer(r) => (r, c, true),
                ArtActionView::WritePng(b) => match spec_art_step(s2, ArtEventView::PngWritten(png_write)).1 {
                    ArtActionView::Answer(r) => (
                        r,
                        if png_write is Ok {
                            ArtCache { png: Some(b), miss: c.miss }
                        } else {
                            c
                        },
                        true,
                    ),
                    _ => (Err(out_of_order_msg()), c, true),
                },
                ArtActionView::WriteMiss => match spec_art_step(s2, ArtEventView::MissWritten).1 {
                    ArtActionView::Answer(r) => (
                        r,
                        if miss_written {
                            ArtCache { png: c.png, miss: true }
                        } else {
                            c
                        },
                        true,
                    ),
                    _ => (Err(out_of_order_msg()), c, true),
                },
                _ => (Err(out_of_order_msg()), c, true),
            }
        },
        _ => (Err(out_of_order_msg()), c, false),
    }
}

/// Following the step function is the lookup: the host that runs
/// [`art_step`] gives exactly the answer, the cache and the use of the network
/// of [`lookup`], and so repeat lookups work offline.
pub proof fn law_art_steps_are_the_lookup(
    c: ArtCache,
    d: DownloadView,
    png_write: Result<(), Seq<char>>,
    miss_written: bool,
)
    ensures
        art_run(c, d, png_write, miss_written) == lookup(c, d, png_write, miss_written),
{
}

/// Repeat lookups run by the step function work offline: after a run that
/// answered `Ok` and whose cache writes succeeded, a second run on the cache
/// it left gives the same answer from the cache, changes nothing and does not
/// download.
pub proof fn law_repeat_steps_offline(
    c: ArtCache,
    d: DownloadView,
    d2: DownloadView,
    png_write2: Result<(), Seq<char>>,
    miss_written2: bool,
)
    requires
        art_run(c, d, Ok(()), true).0 is Ok,
    ensures
        art_run(art_run(c, d, Ok(()), true).1, d2, png_write2, miss_written2) == (
            art_run(c, d, Ok(()), true).0,
            art_run(c, d, Ok(()), true).1,
            false,
        ),
{
    law_art_steps_are_the_lookup(c, d, Ok(()), true);
    law_art_steps_are_the_lookup(lookup(c, d, Ok(()), true).1, d2, png_write2, miss_written2);
    law_repeat_lookup_offline(c, d, d2, png_write2, miss_written2);
}

/// What a box-art response means: any 2xx status brings the image; of the
/// other statuses only 404 means the title has no art, and every other one
/// is an error naming the status; no response at all (offline) counts as no
/// art.
pub proof fn law_fetch_statuses(status: Option<u16>, status_text: Seq<char>)
    ensures
        status is None ==> spec_fetch_outcome(status, status_text) == FetchOutcomeView::NoArt,
        status matches Some(c) ==> (spec_fetch_outcome(status, status_text) == FetchOutcomeView::Body
            <==> 200 <= c <= 299),
        status matches Some(c) ==> (spec_fetch_outcome(status, status_text) == FetchOutcomeView::NoArt
            <==> c == 404),
        status matches Some(c) ==> (!(200 <= c <= 299) && c != 404 ==> spec_fetch_outcome(
            status,
            status_text,
        ) == FetchOutcomeView::Failed("box art request failed: HTTP "@ + status_text)),
{
}

/// The cache decides before the network: a cached image is always used, a
/// recorded miss (with no image) answers "no art", and only a cache holding
/// neither downloads.
pub proof fn law_cache_first(png_is_file: bool, miss_is_file: bool)
    ensures
        (spec_cache_decision(png_is_file, miss_is_file) == CacheDecision::UseCachedArt) <==> png_is_file,
        (spec_cache_decision(png_is_file, miss_is_file) == CacheDecision::KnownMiss) <==> (!png_is_file
            && miss_is_file),
        (spec_cache_decision(png_is_file, miss_is_file) == CacheDecision::Download) <==> (!png_is_file
            && !miss_is_file),
{
}

/// The characters libretro-thumbnails replaces in file names.
pub open spec fn reserved_chars() -> Seq<char> {
    seq!['&', '*', '/', ':', '`', '<', '>', '?', '\\', '|', '"']
}

/// Sanitizing keeps a title's length and every character that is not
/// reserved, turns each reserved character into `_`, and so leaves none.
pub proof fn law_sanitize(title: Seq<char>)
    ensures
        spec_sanitize(title).len() == title.len(),
        forall|i: int|
            0 <= i < title.len() && !reserved_chars().contains(#[trigger] title[i]) ==> spec_sanitize(
                title,
            )[i] == title[i],
        forall|i: int|
            0 <= i < title.len() && reserved_chars().contains(#[trigger] title[i]) ==> spec_sanitize(
                title,
            )[i] == '_',
        forall|i: int|
            0 <= i < title.len() ==> !reserved_chars().contains(#[trigger] spec_sanitize(title)[i]),
{
    let r = reserved_chars();
    assert forall|c: char| #[trigger] r.contains(c) <==> (c == '&' || c == '*' || c == '/' || c == ':'
        || c == '`' || c == '<' || c == '>' || c == '?' || c == '\\' || c == '|' || c == '"') by {
        if r.contains(c) {
            let i = choose|i: int| 0 <= i < r.len() && r[i] == c;
        }
        if c == '&' { assert(r[0] == c); }
        if c == '*' { assert(r[1] == c); }
        if c == '/' { assert(r[2] == c); }
        if c == ':' { assert(r[3] == c); }
        if c == '`' { assert(r[4] == c); }
        if c == '<' { assert(r[5] == c); }
        if c == '>' { assert(r[6] == c); }
        if c == '?' { assert(r[7] == c); }
        if c == '\\' { assert(r[8] == c); }
        if c == '|' { assert(r[9] == c); }
        if c == '"' { assert(r[10] == c); }
    }
    assert forall|i: int| 0 <= i < title.len() implies !r.contains(#[trigger] spec_sanitize(title)[i]) by {
        assert(spec_sanitize(title)[i] == sanitize_char(title[i]));
    }
}

/* Base64 */

/// The standard base64 alphabet: `A-Z`, `a-z`, `0-9`, `+`, `/`.
pub open spec fn b64_char(i: u8) -> char {
    if i < 26 {
        (65 + i) as char
    } else if i < 52 {
        (97 + (i - 26)) as char
    } else if i < 62 {
        (48 + (i - 52)) as char
    } else if i == 62 {
        '+'
    } else {
        '/'
    }
}

fn b64_char_exec(i: u8) -> (c: char)
    requires
        i < 64,
    ensures
        c == b64_char(i),
{
    if i < 26 {
        (65u8 + i) as char
    } else if i < 52 {
        (97u8 + (i - 26)) as char
    } else if i < 62 {
        (48u8 + (i - 52)) as char
    } else if i == 62 {
        '+'
    } else {
        '/'
    }
}

/// The four characters encoding the `k`-th group of three bytes of `b`
/// (missing bytes count as zero; their characters become `=`).
pub open spec fn b64_group(b: Seq<u8>, k: int) -> Seq<char> {
    let s = 3 * k;
    let rem = b.len() - s;
    let b0 = b[s];
    let b1: u8 = if rem > 1 { b[s + 1] } else { 0 };
    let b2: u8 = if rem > 2 { b[s + 2] } else { 0 };
    seq![
        b64_char(b0 >> 2),
        b64_char(((b0 & 3) << 4) | (b1 >> 4)),
        if rem > 1 { b64_char(((b1 & 15) << 2) | (b2 >> 6)) } else { '=' },
        if rem > 2 { b64_char(b2 & 63) } else { '=' },
    ]
}

/// The encodings of the first `n` groups of `b`.
pub open spec fn b64_groups(b: Seq<u8>, n: int) -> Seq<char>
    decreases n,
{
    if n <= 0 {
        Seq::empty()
    } else {
        b64_groups(b, n - 1) + b64_group(b, n - 1)
    }
}

/// Number of three-byte groups in `len` bytes, the last one possibly partial.
pub open spec fn b64_group_count(len: int) -> int {
    (len + 2) / 3
}

/// Standard padded base64 (RFC 4648) of `b`.
pub open spec fn spec_base64(b: Seq<u8>) -> Seq<char> {
    b64_groups(b, b64_group_count(b.len() as int))
}

/// Standard-base64 encoding with padding.
pub fn to_base64(input: &[u8]) -> (r: String)
    ensures
        r@ == spec_base64(input@),
{
    let len = input.len();
    let mut out = String::new();
    let mut start: usize = 0;
    let ghost mut k: int = 0;
    if len == 0 {
        return out;
    }
    while start < len
        invariant
            len == input@.len(),
            start <= len,
            start < len ==> start == 3 * k,
            start == len ==> k == b64_group_count(len as int),
            0 <= k,
            out@ == b64_groups(input@, k),
        decreases len - start,
    {
        let rem = len - start;
        let b0 = input[start];
        let b1: u8 = if rem > 1 { input[start + 1] } else { 0 };
        let b2: u8 = if rem > 2 { input[start + 2] } else { 0 };
        let n: u32 = ((b0 as u32) << 16) | ((b1 as u32) << 8) | (b2 as u32);
        let i0 = ((n >> 18) & 0x3f) as u8;
        let i1 = ((n >> 12) & 0x3f) as u8;
        let i2 = ((n >> 6) & 0x3f) as u8;
        let i3 = (n & 0x3f) as u8;
        assert(i0 == b0 >> 2 && i1 == (((b0 & 3) << 4) | (b1 >> 4)) && i2 == (((b1 & 15) << 2) | (b2
            >> 6)) && i3 == (b2 & 63) && i0 < 64 && i1 < 64 && i2 < 64 && i3 < 64) by (bit_vector)
            requires
                n == ((b0 as u32) << 16) | ((b1 as u32) << 8) | (b2 as u32),
                i0 == ((n >> 18) & 0x3f) as u8,
                i1 == ((n >> 12) & 0x3f) as u8,
                i2 == ((n >> 6) & 0x3f) as u8,
                i3 == (n & 0x3f) as u8,
        ;
        let ghost before = out@;
        push_char(&mut out, b64_char_exec(i0));
        push_char(&mut out, b64_char_exec(i1));
        push_char(&mut out, if rem > 1 { b64_char_exec(i2) } else { '=' });
        push_char(&mut out, if rem > 2 { b64_char_exec(i3) } else { '=' });
        assert(out@ =~= before + b64_group(input@, k));
        start = if rem > 3 { start + 3 } else { len };
        proof {
            k = k + 1;
        }
    }
    out
}

/// Wrap image bytes as a `data:image/png;base64,...` URL.
pub open spec fn spec_data_url(bytes: Seq<u8>) -> Seq<char> {
    "data:image/png;base64,"@ + spec_base64(bytes)
}

/// Wrap image bytes as a `data:image/png;base64,...` URL.
pub fn to_data_url(bytes: &[u8]) -> (r: String)
    ensures
        r@ == spec_data_url(bytes@),
{
    let mut s = owned("data:image/png;base64,");
    push_str(&mut s, to_base64(bytes).as_str());
    s
}

proof fn lemma_b64_groups_len(b: Seq<u8>, n: int)
    requires
        n >= 0,
    ensures
        b64_groups(b, n).len() == 4 * n,
    decreases n,
{
    if n > 0 {
        lemma_b64_groups_len(b, n - 1);
    }
}

/// Base64 output is four characters for every started group of three bytes.
pub proof fn law_base64_length(b: Seq<u8>)
    ensures
        spec_base64(b).len() == 4 * b64_group_count(b.len() as int),
{
    lemma_b64_groups_len(b, b64_group_count(b.len() as int));
}

/// The value of a base64 character, or `None` for a character outside the
/// alphabet.
pub open spec fn b64_index(c: char) -> Option<u8> {
    if 'A' <= c <= 'Z' {
        Some((c as int - 65) as u8)
    } else if 'a' <= c <= 'z' {
        Some((c as int - 97 + 26) as u8)
    } else if '0' <= c <= '9' {
        Some((c as int - 48 + 52) as u8)
    } else if c == '+' {
        Some(62u8)
    } else if c == '/' {
        Some(63u8)
    } else {
        None
    }
}

/// Decodes one group of four characters; `=` padding (one or two) is
/// accepted only in the `last` group.
pub open spec fn b64_decode_group(q: Seq<char>, last: bool) -> Option<Seq<u8>> {
    if q.len() != 4 || b64_index(q[0]) is None || b64_index(q[1]) is None {
        None
    } else {
        let i0 = b64_index(q[0])->0;
        let i1 = b64_index(q[1])->0;
        let x0: u8 = (i0 << 2) | (i1 >> 4);
        if last && q[2] == '=' && q[3] == '=' {
            Some(seq![x0])
        } else if b64_index(q[2]) is None {
            None
        } else {
            let i2 = b64_index(q[2])->0;
            let x1: u8 = ((i1 & 15) << 4) | (i2 >> 2);
            if last && q[3] == '=' {
                Some(seq![x0, x1])
            } else if b64_index(q[3]) is None {
                None
            } else {
                let i3 = b64_index(q[3])->0;
                Some(seq![x0, x1, ((i2 & 3) << 6) | i3])
            }
        }
    }
}

/// Decodes the first `n` groups of `s`.
pub open spec fn b64_decode_groups(s: Seq<char>, n: int) -> Option<Seq<u8>>
    decreases n,
{
    if n <= 0 {
        Some(Seq::empty())
    } else {
        match b64_decode_groups(s, n - 1) {
            None => None,
            Some(p) => match b64_decode_group(s.subrange(4 * n - 4, 4 * n), 4 * n == s.len()) {
                None => None,
                Some(q) => Some(p + q),
            },
        }
    }
}

/// Standard padded base64 decoding (RFC 4648): `None` when `s` is not a
/// whole number of four-character groups of the alphabet, padded only at the
/// end.
pub open spec fn b64_decode(s: Seq<char>) -> Option<Seq<u8>> {
    if s.len() % 4 == 0 {
        b64_decode_groups(s, (s.len() / 4) as int)
    } else {
        None
    }
}

proof fn lemma_b64_index_char(i: u8)
    requires
        i < 64,
    ensures
        b64_index(b64_char(i)) == Some(i),
{
}

/// One group decodes back to the bytes it encodes.
proof fn lemma_b64_group_round_trip(b: Seq<u8>, k: int)
    requires
        0 <= k,
        3 * k < b.len(),
    ensures
        b64_decode_group(b64_group(b, k), 3 * k + 3 >= b.len()) == Some(
            b.subrange(3 * k, if 3 * k + 3 <= b.len() { 3 * k + 3 } else { b.len() as int }),
        ),
{
    let s = 3 * k;
    let rem = b.len() - s;
    let b0 = b[s];
    let b1: u8 = if rem > 1 { b[s + 1] } else { 0 };
    let b2: u8 = if rem > 2 { b[s + 2] } else { 0 };
    let i0: u8 = b0 >> 2;
    let i1: u8 = ((b0 & 3) << 4) | (b1 >> 4);
    let i2: u8 = ((b1 & 15) << 2) | (b2 >> 6);
    let i3: u8 = b2 & 63;
    assert(i0 < 64 && i1 < 64 && i2 < 64 && i3 < 64 && ((i0 << 2) | (i1 >> 4)) == b0 && (((i1 & 15)
        << 4) | (i2 >> 2)) == b1 && (((i2 & 3) << 6) | i3) == b2) by (bit_vector)
        requires
            i0 == b0 >> 2,
            i1 == ((b0 & 3) << 4) | (b1 >> 4),
            i2 == ((b1 & 15) << 2) | (b2 >> 6),
            i3 == b2 & 63,
    ;
    lemma_b64_index_char(i0);
    lemma_b64_index_char(i1);
    lemma_b64_index_char(i2);
    lemma_b64_index_char(i3);
    let q = b64_group(b, k);
    assert(b64_char(i2) != '=');
    assert(b64_char(i3) != '=');
    if rem == 1 {
        assert(b.subrange(s, b.len() as int) =~= seq![b0]);
    } else if rem == 2 {
        assert(b.subrange(s, b.len() as int) =~= seq![b0, b1]);
    } else {
        assert(b.subrange(s, s + 3) =~= seq![b0, b1, b2]);
    }
}

proof fn lemma_b64_groups_prefix(b: Seq<u8>, m: int, n: int)
    requires
        0 <= m <= n,
    ensures
        b64_groups(b, n).subrange(0, 4 * m) == b64_groups(b, m),
    decreases n,
{
    lemma_b64_groups_len(b, n);
    lemma_b64_groups_len(b, m);
    if m < n {
        lemma_b64_groups_prefix(b, m, n - 1);
        lemma_b64_groups_len(b, n - 1);
        assert(b64_groups(b, n).subrange(0, 4 * m) =~= b64_groups(b, n - 1).subrange(0, 4 * m));
    } else {
        assert(b64_groups(b, n).subrange(0, 4 * m) =~= b64_groups(b, m));
    }
}

/// Decoding the encoding gives back the input: base64 loses nothing.
pub proof fn law_base64_round_trip(b: Seq<u8>)
    ensures
        b64_decode(spec_base64(b)) == Some(b),
{
    let n = b64_group_count(b.len() as int);
    let e = spec_base64(b);
    lemma_b64_groups_len(b, n);
    assert(e.len() / 4 == n);
    assert forall|m: int| 0 <= m <= n implies #[trigger] b64_decode_groups(e, m) == Some(
        b.subrange(0, if 3 * m <= b.len() { 3 * m } else { b.len() as int }),
    ) by {
        lemma_decode_prefix(b, m);
    }
    assert(b.subrange(0, b.len() as int) =~= b);
}

proof fn lemma_decode_prefix(b: Seq<u8>, m: int)
    requires
        0 <= m <= b64_group_count(b.len() as int),
    ensures
        b64_decode_groups(spec_base64(b), m) == Some(
            b.subrange(0, if 3 * m <= b.len() { 3 * m } else { b.len() as int }),
        ),
    decreases m,
{
    let n = b64_group_count(b.len() as int);
    let e = spec_base64(b);
    if m == 0 {
        assert(b.subrange(0, 0) =~= Seq::<u8>::empty());
    } else {
        lemma_decode_prefix(b, m - 1);
        lemma_b64_groups_len(b, n);
        lemma_b64_groups_prefix(b, m, n);
        lemma_b64_groups_len(b, m - 1);
        assert(e.subrange(4 * m - 4, 4 * m) =~= b64_group(b, m - 1)) by {
            assert(e.subrange(0, 4 * m) == b64_groups(b, m));
            assert(e.subrange(4 * m - 4, 4 * m) =~= e.subrange(0, 4 * m).subrange(4 * m - 4, 4 * m));
        }
        lemma_b64_group_round_trip(b, m - 1);
        assert((4 * m == e.len()) == (3 * (m - 1) + 3 >= b.len()));
        let hi = if 3 * m <= b.len() { 3 * m } else { b.len() as int };
        assert(b.subrange(0, 3 * m - 3) + b.subrange(3 * m - 3, hi) =~= b.subrange(0, hi));
    }
}

/// Encoding is group by group: when the first part is a whole number of
/// three-byte groups, the encoding of the concatenation is the concatenation
/// of the encodings.
pub proof fn law_base64_concat(a: Seq<u8>, b: Seq<u8>)
    requires
        a.len() % 3 == 0,
    ensures
        spec_base64(a + b) == spec_base64(a) + spec_base64(b),
{
    let na: int = (a.len() / 3) as int;
    let ab = a + b;
    assert forall|k: int| 0 <= k < na implies #[trigger] b64_group(ab, k) == b64_group(a, k) by {
        assert(ab[3 * k] == a[3 * k] && ab[3 * k + 1] == a[3 * k + 1] && ab[3 * k + 2] == a[3 * k + 2]);
    }
    assert forall|k: int| 0 <= k && 3 * k < b.len() implies #[trigger] b64_group(ab, na + k)
        == b64_group(b, k) by {
        assert(ab[3 * (na + k)] == b[3 * k]);
        if 3 * k + 1 < b.len() {
            assert(ab[3 * (na + k) + 1] == b[3 * k + 1]);
        }
        if 3 * k + 2 < b.len() {
            assert(ab[3 * (na + k) + 2] == b[3 * k + 2]);
        }
    }
    lemma_groups_prefix_same(a, ab, na);
    lemma_groups_shift(a, b, b64_group_count(b.len() as int));
    assert(b64_group_count(ab.len() as int) == na + b64_group_count(b.len() as int));
}

proof fn lemma_groups_prefix_same(a: Seq<u8>, ab: Seq<u8>, m: int)
    requires
        0 <= m,
        forall|k: int| 0 <= k < m ==> #[trigger] b64_group(ab, k) == b64_group(a, k),
    ensures
        b64_groups(ab, m) == b64_groups(a, m),
    decreases m,
{
    if m > 0 {
        lemma_groups_prefix_same(a, ab, m - 1);
        assert(b64_group(ab, m - 1) == b64_group(a, m - 1));
    }
}

proof fn lemma_groups_shift(a: Seq<u8>, b: Seq<u8>, m: int)
    requires
        a.len() % 3 == 0,
        0 <= m <= b64_group_count(b.len() as int),
        b64_groups(a + b, (a.len() / 3) as int) == b64_groups(a, (a.len() / 3) as int),
        forall|k: int|
            0 <= k && 3 * k < b.len() ==> #[trigger] b64_group(a + b, (a.len() / 3) as int + k) == b64_group(
                b,
                k,
            ),
    ensures
        b64_groups(a + b, (a.len() / 3) as int + m) == b64_groups(a, (a.len() / 3) as int) + b64_groups(b, m),
    decreases m,
{
    let na: int = (a.len() / 3) as int;
    if m == 0 {
        assert(b64_groups(a, na) + b64_groups(b, 0) =~= b64_groups(a, na));
    } else {
        lemma_groups_shift(a, b, m - 1);
        assert(b64_group(a + b, na + (m - 1)) == b64_group(b, m - 1));
        assert(b64_groups(a + b, na + m) == b64_groups(a + b, na + m - 1) + b64_group(a + b, na + m - 1));
        assert(b64_groups(a, na) + b64_groups(b, m) =~= (b64_groups(a, na) + b64_groups(b, m - 1))
            + b64_group(b, m - 1));
    }
}

} // verus!
