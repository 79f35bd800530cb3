//! Checks and small decisions of the application's commands: project ids,
//! project paths, setup phases and export preflight items.

use vstd::prelude::*;

use crate::doc::{strings_view, Doc, SentenceView};
use crate::error::{AppError, AppResult};
use crate::export_settings::{ids_where, lemma_ids_where_push, lemma_para_ids_where_push, para_ids_where};
use crate::doc::{entries_map, TranslationTrack};
use crate::search::{contains_seq, contains_text, lowercase, lowercase_of};
use crate::subtitle::{
    contains_id, last_of_key, last_of_lang, lemma_entries_map_last, lemma_tracks_map_last, tracks_map,
};
use crate::text::{owned, push_char, push_str, str_eq, trim, trimmed};

verus! {

/// A project id, once trimmed, names one directory inside the projects
/// root: it is not empty, not `.` or `..`, and holds no `/` or `\` (on a
/// Unix system such a name is exactly one path component).
pub open spec fn project_id_ok(t: Seq<char>) -> bool {
    &&& t.len() > 0
    &&& t != seq!['.']
    &&& t != seq!['.', '.']
    &&& forall|i: int| 0 <= i < t.len() ==> #[trigger] t[i] != '/' && t[i] != '\\'
}

fn id_ok(t: &str) -> (r: bool)
    ensures
        r == project_id_ok(t@),
{
    let n = t.unicode_len();
    if n == 0 {
        return false;
    }
    if n == 1 && t.get_char(0) == '.' {
        assert(t@ =~= seq!['.']);
        return false;
    }
    if n == 2 && t.get_char(0) == '.' && t.get_char(1) == '.' {
        assert(t@ =~= seq!['.', '.']);
        return false;
    }
    let mut i: usize = 0;
    while i < n
        invariant
            n == t@.len(),
            0 <= i <= n,
            forall|k: int| 0 <= k < i ==> #[trigger] t@[k] != '/' && t@[k] != '\\',
        decreases n - i,
    {
        let c = t.get_char(i);
        if c == '/' || c == '\\' {
            return false;
        }
        i = i + 1;
    }
    assert(n == 1 ==> t@ != seq!['.']);
    assert(n == 2 ==> t@ != seq!['.', '.']);
    true
}

/// `base` joined with a relative path `name` (`Path::join` for a name with
/// no separator): a `/` goes between them unless `base` is empty or already
/// ends in one.
pub open spec fn join_path(base: Seq<char>, name: Seq<char>) -> Seq<char> {
    if base.len() == 0 {
        name
    } else if base.last() == '/' {
        base + name
    } else {
        base + seq!['/'] + name
    }
}

pub fn join(base: &str, name: &str) -> (r: String)
    ensures
        r@ == join_path(base@, name@),
{
    let mut out = owned(base);
    let n = base.unicode_len();
    if n > 0 && base.get_char(n - 1) != '/' {
        push_char(&mut out, '/');
    }
    push_str(&mut out, name);
    assert(n > 0 ==> base@.last() == base@[n - 1]);
    out
}

/// The directory of project `pid` under `root`. An id that does not name
/// one directory (see `project_id_ok`) is refused.
pub fn resolve_project_dir(pid: &str, root: &str) -> (r: AppResult<String>)
    ensures
        project_id_ok(trimmed(pid@)) ==> (r matches Ok(p) && p@ == join_path(root@, trimmed(pid@))),
        !project_id_ok(trimmed(pid@)) ==> (r matches Err(AppError::Schema(m)) && m@
            == "invalid project id"@),
{
    let t = trim(pid);
    if !id_ok(t) {
        return Err(AppError::Schema(owned("invalid project id")));
    }
    Ok(join(root, t))
}

/// Where a recording of project `pid` under `root` is written: its
/// `audio.wav`. An id that does not name one directory is refused.
pub fn recording_output(pid: &str, root: &str) -> (r: AppResult<String>)
    ensures
        project_id_ok(trimmed(pid@)) ==> (r matches Ok(p) && p@ == join_path(
            join_path(root@, trimmed(pid@)),
            "audio.wav"@,
        )),
        !project_id_ok(trimmed(pid@)) ==> (r matches Err(AppError::Schema(m)) && m@
            == "invalid recording project id"@),
{
    let t = trim(pid);
    if !id_ok(t) {
        return Err(AppError::Schema(owned("invalid recording project id")));
    }
    let dir = join(root, t);
    Ok(join(dir.as_str(), "audio.wav"))
}

/// The phase a setup job of kind `kind` reports while running: runtimes are
/// installed, models downloaded; other kinds are unknown.
pub fn setup_phase(kind: &str) -> (r: Option<&'static str>)
    ensures
        ({
            let k = kind@;
            match r {
                Some(p) => ((k == "asr-runtime"@ || k == "speaker-runtime"@) && p@ == "installing"@)
                    || (!(k == "asr-runtime"@ || k == "speaker-runtime"@) && (k == "asr-models"@ || k
                    == "speaker-model"@) && p@ == "downloading"@),
                None => !(k == "asr-runtime"@ || k == "speaker-runtime"@ || k == "asr-models"@ || k
                    == "speaker-model"@),
            }
        }),
{
    if str_eq(kind, "asr-runtime") || str_eq(kind, "speaker-runtime") {
        Some("installing")
    } else if str_eq(kind, "asr-models") || str_eq(kind, "speaker-model") {
        Some("downloading")
    } else {
        None
    }
}

/// The export mode a video export uses when none is given.
pub fn default_video_export_mode() -> (r: String)
    ensures
        r@ == "fast"@,
{
    owned("fast")
}

/// The index of the last `c` in `s`, or -1.
pub open spec fn last_index(s: Seq<char>, c: char) -> int
    decreases s.len(),
{
    if s.len() == 0 {
        -1
    } else if s.last() == c {
        s.len() - 1
    } else {
        last_index(s.drop_last(), c)
    }
}

/// The last component of a Unix path: separators are `/`, empty and `.`
/// components are skipped.
pub open spec fn last_component(s: Seq<char>) -> Option<Seq<char>>
    decreases s.len(),
{
    proof {
        lemma_last_index_bounds(s, '/');
    }
    let j = last_index(s, '/');
    let piece = s.subrange(j + 1, s.len() as int);
    if piece.len() > 0 && piece != seq!['.'] {
        Some(piece)
    } else if j < 0 {
        None
    } else {
        last_component(s.subrange(0, j))
    }
}

/// The extension of the file a Unix path names (`Path::extension`): the
/// text after the last `.` of its file name, unless the name is `..`, has
/// no `.`, or has its only `.` in front.
pub open spec fn path_extension_of(path: Seq<char>) -> Option<Seq<char>> {
    match last_component(path) {
        Some(name) => if name == seq!['.', '.'] || last_index(name, '.') <= 0 {
            None
        } else {
            Some(name.subrange(last_index(name, '.') + 1, name.len() as int))
        },
        None => None,
    }
}

pub proof fn lemma_last_index_bounds(s: Seq<char>, c: char)
    ensures
        -1 <= last_index(s, c) < s.len(),
        last_index(s, c) >= 0 ==> s[last_index(s, c)] == c,
        forall|k: int| last_index(s, c) < k < s.len() ==> s[k] != c,
    decreases s.len(),
{
    if s.len() > 0 && s.last() != c {
        lemma_last_index_bounds(s.drop_last(), c);
        assert forall|k: int| last_index(s, c) < k < s.len() implies s[k] != c by {
            if k < s.len() - 1 {
                assert(s[k] == s.drop_last()[k]);
            }
        }
    }
}

fn find_last(cs: &Vec<char>, hi: usize, c: char) -> (r: Option<usize>)
    requires
        hi <= cs@.len(),
    ensures
        match r {
            Some(j) => j as int == last_index(cs@.subrange(0, hi as int), c),
            None => last_index(cs@.subrange(0, hi as int), c) == -1,
        },
{
    let mut k: usize = hi;
    while k > 0
        invariant
            k <= hi <= cs@.len(),
            last_index(cs@.subrange(0, hi as int), c) == last_index(cs@.subrange(0, k as int), c),
        decreases k,
    {
        let ghost sub = cs@.subrange(0, k as int);
        assert(sub.drop_last() =~= cs@.subrange(0, k - 1));
        if cs[k - 1] == c {
            assert(sub.last() == c);
            return Some(k - 1);
        }
        k = k - 1;
    }
    None
}

/// `std::path::Path::extension` of a path given as text, with Unix
/// separators.
pub fn path_extension(path: &str) -> (r: Option<String>)
    ensures
        match r {
            Some(e) => path_extension_of(path@) == Some(e@),
            None => path_extension_of(path@) is None,
        },
{
    let cs = crate::text::chars_of(path);
    let mut hi: usize = cs.len();
    let mut name: Option<(usize, usize)> = None;
    assert(cs@.subrange(0, hi as int) =~= path@);
    loop
        invariant
            hi <= cs@.len(),
            cs@ == path@,
            name is None ==> last_component(path@) == last_component(cs@.subrange(0, hi as int)),
            name matches Some((lo, end)) ==> lo <= end <= cs@.len() && last_component(path@) == Some(
                cs@.subrange(lo as int, end as int),
            ),
        ensures
            name matches Some((lo, end)) && lo <= end <= cs@.len() && last_component(path@) == Some(
                cs@.subrange(lo as int, end as int),
            ),
        decreases hi, if name is None { 1int } else { 0int },
    {
        if name.is_some() {
            break;
        }
        let ghost sub = cs@.subrange(0, hi as int);
        let j = find_last(&cs, hi, '/');
        proof {
            lemma_last_index_bounds(sub, '/');
        }
        let start = match j {
            Some(j) => j + 1,
            None => 0,
        };
        proof {
            assert(sub.subrange(last_index(sub, '/') + 1, sub.len() as int) =~= cs@.subrange(
                start as int,
                hi as int,
            ));
        }
        let piece_len = hi - start;
        let is_dot = piece_len == 1 && cs[start] == '.';
        proof {
            if piece_len == 1 {
                assert(cs@.subrange(start as int, hi as int) == seq!['.'] <==> cs@[start as int] == '.') by {
                    assert(cs@.subrange(start as int, hi as int)[0] == cs@[start as int]);
                    if cs@[start as int] == '.' {
                        assert(cs@.subrange(start as int, hi as int) =~= seq!['.']);
                    }
                }
            }
        }
        if piece_len > 0 && !is_dot {
            name = Some((start, hi));
        } else {
            match j {
                None => {
                    return None;
                },
                Some(j) => {
                    assert(sub.subrange(0, j as int) =~= cs@.subrange(0, j as int));
                    hi = j;
                },
            }
        }
    }
    let (lo, end) = match name {
        Some(p) => p,
        None => {
            return None;
        },
    };
    let ghost nm = cs@.subrange(lo as int, end as int);
    let nlen = end - lo;
    if nlen == 2 && cs[lo] == '.' && cs[lo + 1] == '.' {
        assert(nm =~= seq!['.', '.']);
        return None;
    }
    proof {
        if nm == seq!['.', '.'] {
            assert(nm[0] == cs@[lo as int] && nm[1] == cs@[lo + 1]);
        }
    }
    let mut nv: Vec<char> = Vec::new();
    let mut i: usize = lo;
    while i < end
        invariant
            lo <= i <= end <= cs@.len(),
            nv@ == cs@.subrange(lo as int, i as int),
        decreases end - i,
    {
        nv.push(cs[i]);
        assert(nv@ =~= cs@.subrange(lo as int, i + 1));
        i = i + 1;
    }
    assert(nv@ =~= nm);
    assert(nv@.subrange(0, nlen as int) =~= nm);
    let k = find_last(&nv, nlen, '.');
    proof {
        lemma_last_index_bounds(nm, '.');
    }
    match k {
        None => None,
        Some(k) => {
            if k == 0 {
                None
            } else {
                Some(crate::text::string_of(&nv, k + 1, nlen))
            }
        },
    }
}

/// ASCII letters in lower case, other characters unchanged.
pub open spec fn ascii_lower(c: char) -> char {
    if 'A' <= c <= 'Z' {
        ((c as u32) + 32) as char
    } else {
        c
    }
}

pub open spec fn ascii_lowercase(s: Seq<char>) -> Seq<char> {
    Seq::new(s.len(), |i: int| ascii_lower(s[i]))
}

/// `str::to_ascii_lowercase`.
pub fn to_ascii_lowercase(s: &str) -> (r: String)
    ensures
        r@ == ascii_lowercase(s@),
{
    let n = s.unicode_len();
    let mut out = String::new();
    let mut i: usize = 0;
    while i < n
        invariant
            n == s@.len(),
            0 <= i <= n,
            out@ == ascii_lowercase(s@).subrange(0, i as int),
        decreases n - i,
    {
        let c = s.get_char(i);
        let l = if 'A' <= c && c <= 'Z' {
            let b = ((c as u32) + 32) as u8;
            b as char
        } else {
            c
        };
        assert(l == ascii_lower(c));
        push_char(&mut out, l);
        i = i + 1;
        assert(out@ =~= ascii_lowercase(s@).subrange(0, i as int));
    }
    assert(ascii_lowercase(s@).subrange(0, i as int) =~= ascii_lowercase(s@));
    out
}

/// Extensions of still images, in lower case.
pub open spec fn still_extension(e: Seq<char>) -> bool {
    e == "png"@ || e == "jpg"@ || e == "jpeg"@ || e == "webp"@ || e == "gif"@
}

/// Whether a media path names a still image, by its extension in any case.
pub fn is_still_image(path: &str) -> (r: bool)
    ensures
        r == (path_extension_of(path@) matches Some(e) && still_extension(ascii_lowercase(e))),
{
    match path_extension(path) {
        None => false,
        Some(e) => {
            let l = to_ascii_lowercase(e.as_str());
            str_eq(l.as_str(), "png") || str_eq(l.as_str(), "jpg") || str_eq(l.as_str(), "jpeg")
                || str_eq(l.as_str(), "webp") || str_eq(l.as_str(), "gif")
        },
    }
}

/// One line of an export preflight report: a check's code, its level
/// (`pass`, `warning` or `blocker`) and a message.
#[derive(Debug)]
pub struct ExportPreflightItem {
    pub code: String,
    pub level: String,
    pub message: String,
}

pub struct PreflightItemView {
    pub code: Seq<char>,
    pub level: Seq<char>,
    pub message: Seq<char>,
}

impl View for ExportPreflightItem {
    type V = PreflightItemView;

    open spec fn view(&self) -> PreflightItemView {
        PreflightItemView { code: self.code@, level: self.level@, message: self.message@ }
    }
}

pub open spec fn items_view(v: Seq<ExportPreflightItem>) -> Seq<PreflightItemView> {
    Seq::new(v.len(), |i: int| v[i]@)
}

/// Appends a preflight item.
pub fn push_export_preflight_item(
    items: &mut Vec<ExportPreflightItem>,
    code: &str,
    level: &str,
    message: String,
)
    ensures
        items_view(final(items)@) == items_view(old(items)@).push(
            PreflightItemView { code: code@, level: level@, message: message@ },
        ),
{
    let ghost before = items@;
    let item = ExportPreflightItem { code: owned(code), level: owned(level), message };
    items.push(item);
    assert(items_view(items@) =~= items_view(before).push(item@));
}

/// Whether some item of a preflight report has level `level`, and code
/// `code` when one is given.
pub open spec fn has_item(items: Seq<PreflightItemView>, code: Option<Seq<char>>, level: Seq<char>) -> bool {
    exists|i: int|
        0 <= i < items.len() && #[trigger] items[i].level == level && (code matches Some(c) ==> items[i].code
            == c)
}

pub open spec fn opt_view(o: Option<&str>) -> Option<Seq<char>> {
    match o {
        Some(s) => Some(s@),
        None => None,
    }
}

/// Whether some item has level `level` (and code `code`, when given).
pub fn has_preflight_item(items: &Vec<ExportPreflightItem>, code: Option<&str>, level: &str) -> (r: bool)
    ensures
        r == has_item(items_view(items@), opt_view(code), level@),
{
    let ghost iv = items_view(items@);
    let mut i: usize = 0;
    while i < items.len()
        invariant
            iv == items_view(items@),
            0 <= i <= iv.len(),
            forall|k: int|
                0 <= k < i ==> !(#[trigger] iv[k].level == level@ && (opt_view(code) matches Some(c)
                    ==> iv[k].code == c)),
        decreases iv.len() - i,
    {
        let it = &items[i];
        assert(iv[i as int] == it@);
        let code_ok = match code {
            Some(c) => str_eq(it.code.as_str(), c),
            None => true,
        };
        if code_ok && str_eq(it.level.as_str(), level) {
            assert(iv[i as int].level == level@ && (opt_view(code) matches Some(c) ==> iv[i as int].code
                == c));
            return true;
        }
        i = i + 1;
    }
    false
}

/// A preflight report is ready when no item blocks the export.
pub fn preflight_ready(items: &Vec<ExportPreflightItem>) -> (r: bool)
    ensures
        r == !has_item(items_view(items@), None, "blocker"@),
{
    !has_preflight_item(items, None, "blocker")
}


/// Whether `s` starts with `prefix`.
pub open spec fn starts_with(s: Seq<char>, prefix: Seq<char>) -> bool {
    prefix.len() <= s.len() && s.subrange(0, prefix.len() as int) == prefix
}

fn has_prefix(s: &str, prefix: &str) -> (r: bool)
    ensures
        r == starts_with(s@, prefix@),
{
    let n = s.unicode_len();
    let m = prefix.unicode_len();
    if m > n {
        return false;
    }
    let mut i: usize = 0;
    while i < m
        invariant
            n == s@.len(),
            m == prefix@.len(),
            m <= n,
            0 <= i <= m,
            forall|k: int| 0 <= k < i ==> s@[k] == prefix@[k],
        decreases m - i,
    {
        if s.get_char(i) != prefix.get_char(i) {
            assert(s@.subrange(0, m as int)[i as int] != prefix@[i as int]);
            return false;
        }
        i = i + 1;
    }
    assert(s@.subrange(0, m as int) =~= prefix@);
    true
}

/// The project id of a transcription request: the given id trimmed, or
/// nothing when it is missing or blank.
pub fn project_id_arg(pid: Option<&str>) -> (r: Option<String>)
    ensures
        match pid {
            None => r is None,
            Some(p) => if trimmed(p@).len() == 0 {
                r is None
            } else {
                r matches Some(t) && t@ == trimmed(p@)
            },
        },
{
    match pid {
        None => None,
        Some(p) => {
            let t = trim(p);
            if t.unicode_len() == 0 {
                None
            } else {
                Some(owned(t))
            }
        },
    }
}

/// Whether the media to transcribe is a web address to download.
pub fn is_media_url(media: &str) -> (r: bool)
    ensures
        r == (starts_with(media@, "http://"@) || starts_with(media@, "https://"@)),
{
    has_prefix(media, "http://") || has_prefix(media, "https://")
}

/// The progress of the whole transcription while the media downloads:
/// the download's percentage mapped into 12..=23.
pub fn download_progress(percent: u8) -> (r: u8)
    ensures
        r as int == if 12 + (percent as int * 11) / 100 > 23 {
            23
        } else {
            12 + (percent as int * 11) / 100
        },
{
    let scaled: u16 = (percent as u16 * 11) / 100;
    let whole: u16 = 12 + scaled;
    if whole > 23 {
        23
    } else {
        whole as u8
    }
}

/// Whether a media file is audio without pictures, by its extension in
/// any case.
pub open spec fn audio_extension(e: Seq<char>) -> bool {
    e == "aac"@ || e == "aif"@ || e == "aiff"@ || e == "flac"@ || e == "m4a"@ || e == "mp3"@
        || e == "ogg"@ || e == "opus"@ || e == "wav"@
}

/// Whether the media at `path` is audio only, so its thumbnail is a
/// waveform rather than a frame.
pub fn is_audio_only(path: &str) -> (r: bool)
    ensures
        r == (path_extension_of(path@) matches Some(e) && audio_extension(ascii_lowercase(e))),
{
    match path_extension(path) {
        None => false,
        Some(e) => {
            let l = to_ascii_lowercase(e.as_str());
            let l = l.as_str();
            str_eq(l, "aac") || str_eq(l, "aif") || str_eq(l, "aiff") || str_eq(l, "flac")
                || str_eq(l, "m4a") || str_eq(l, "mp3") || str_eq(l, "ogg") || str_eq(l, "opus")
                || str_eq(l, "wav")
        },
    }
}

/// What a thumbnail request does next.
#[derive(Debug, Clone, Copy, PartialEq, Eq, Structural)]
pub enum ThumbnailStep {
    /// The source media is missing: no thumbnail, media unavailable.
    NoMedia,
    /// The cached thumbnail matches the media: hand it out.
    UseCached,
    /// Rendering timed out before: no thumbnail, not deferred.
    Skip,
    /// Heavy work is running: try again later.
    Defer,
    /// Render a new thumbnail.
    Render,
}

/// The decision of a thumbnail request, checked in this order: media
/// present, cache valid, failed before, heavy work active.
pub fn thumbnail_step(media_available: bool, cached: bool, failed_before: bool, heavy_active: bool) -> (r: ThumbnailStep)
    ensures
        r == if !media_available {
            ThumbnailStep::NoMedia
        } else if cached {
            ThumbnailStep::UseCached
        } else if failed_before {
            ThumbnailStep::Skip
        } else if heavy_active {
            ThumbnailStep::Defer
        } else {
            ThumbnailStep::Render
        },
{
    if !media_available {
        ThumbnailStep::NoMedia
    } else if cached {
        ThumbnailStep::UseCached
    } else if failed_before {
        ThumbnailStep::Skip
    } else if heavy_active {
        ThumbnailStep::Defer
    } else {
        ThumbnailStep::Render
    }
}

/// How a thumbnail render ended.
#[derive(Debug, Clone, Copy, PartialEq, Eq, Structural)]
pub enum RenderOutcome {
    Rendered,
    Failed,
    TimedOut,
}

/// What follows a thumbnail render.
#[derive(Debug, Clone, Copy, PartialEq, Eq, Structural)]
pub enum RenderFollowUp {
    /// Store the image and its manifest, then hand it out.
    Store,
    /// Return the render's error.
    ReturnError,
    /// Remember the failure (later requests skip) and answer deferred.
    RememberAndDefer,
}

pub fn after_render(outcome: RenderOutcome) -> (r: RenderFollowUp)
    ensures
        outcome == RenderOutcome::Rendered ==> r == RenderFollowUp::Store,
        outcome == RenderOutcome::Failed ==> r == RenderFollowUp::ReturnError,
        outcome == RenderOutcome::TimedOut ==> r == RenderFollowUp::RememberAndDefer,
{
    match outcome {
        RenderOutcome::Rendered => RenderFollowUp::Store,
        RenderOutcome::Failed => RenderFollowUp::ReturnError,
        RenderOutcome::TimedOut => RenderFollowUp::RememberAndDefer,
    }
}

/// The messages of the blocking items of a preflight report, in order.
pub open spec fn blocker_messages(items: Seq<PreflightItemView>) -> Seq<Seq<char>>
    decreases items.len(),
{
    if items.len() == 0 {
        Seq::empty()
    } else if items.last().level == "blocker"@ {
        blocker_messages(items.drop_last()).push(items.last().message)
    } else {
        blocker_messages(items.drop_last())
    }
}

/// Why a video export may not start: nothing when the preflight report is
/// ready; otherwise `video export preflight failed: ` and the messages of
/// the blocking items joined with `; `.
pub fn preflight_failure(items: &Vec<ExportPreflightItem>) -> (r: Option<String>)
    ensures
        r is None <==> !has_item(items_view(items@), None, "blocker"@),
        r matches Some(m) ==> m@ == "video export preflight failed: "@ + crate::text::join_with(
            blocker_messages(items_view(items@)),
            "; "@,
        ),
{
    if preflight_ready(items) {
        return None;
    }
    let ghost iv = items_view(items@);
    let mut joined = String::new();
    let mut count: usize = 0;
    let mut i: usize = 0;
    while i < items.len()
        invariant
            iv == items_view(items@),
            0 <= i <= iv.len(),
            count == blocker_messages(iv.subrange(0, i as int)).len(),
            count <= i,
            joined@ == crate::text::join_with(blocker_messages(iv.subrange(0, i as int)), "; "@),
        decreases iv.len() - i,
    {
        let item = &items[i];
        assert(iv[i as int] == item@);
        assert(iv.subrange(0, i + 1).drop_last() =~= iv.subrange(0, i as int));
        proof {
            crate::text::lemma_join_with_push(
                blocker_messages(iv.subrange(0, i as int)),
                "; "@,
                item.message@,
            );
        }
        if str_eq(item.level.as_str(), "blocker") {
            if count > 0 {
                push_str(&mut joined, "; ");
            }
            push_str(&mut joined, item.message.as_str());
            count = count + 1;
        }
        i = i + 1;
    }
    assert(iv.subrange(0, i as int) =~= iv);
    let mut m = String::new();
    push_str(&mut m, "video export preflight failed: ");
    push_str(&mut m, joined.as_str());
    Some(m)
}

pub proof fn lemma_paragraph_sentences_prefix(ps: Seq<crate::doc::ParagraphView>, k: int)
    requires
        0 <= k <= ps.len(),
    ensures
        crate::doc::paragraph_sentences(ps.subrange(0, k)).len() <= crate::doc::paragraph_sentences(
            ps,
        ).len(),
    decreases ps.len(),
{
    if k < ps.len() {
        assert(ps.drop_last().subrange(0, k) =~= ps.subrange(0, k));
        lemma_paragraph_sentences_prefix(ps.drop_last(), k);
    } else {
        assert(ps.subrange(0, k) =~= ps);
    }
}

/// How many cues with timed words are exported, and how many are hidden.
pub fn caption_line_counts(doc: &Doc, hidden: &Vec<String>) -> (r: (usize, usize))
    requires
        doc.sentences_v().len() <= usize::MAX,
    ensures
        r.0 == para_ids_where(
            doc.paragraphs_v(),
            |s: SentenceView| s.words.len() > 0 && !strings_view(hidden@).contains(s.id),
        ).len(),
        r.1 == para_ids_where(
            doc.paragraphs_v(),
            |s: SentenceView| s.words.len() > 0 && strings_view(hidden@).contains(s.id),
        ).len(),
{
    let ghost ps = doc.paragraphs_v();
    let ghost fv = |s: SentenceView| s.words.len() > 0 && !strings_view(hidden@).contains(s.id);
    let ghost fh = |s: SentenceView| s.words.len() > 0 && strings_view(hidden@).contains(s.id);
    let mut visible: usize = 0;
    let mut hid: usize = 0;
    let mut p: usize = 0;
    while p < doc.paragraphs.len()
        invariant
            ps == doc.paragraphs_v(),
            fv == (|s: SentenceView| s.words.len() > 0 && !strings_view(hidden@).contains(s.id)),
            fh == (|s: SentenceView| s.words.len() > 0 && strings_view(hidden@).contains(s.id)),
            0 <= p <= ps.len(),
            visible == para_ids_where(ps.subrange(0, p as int), fv).len(),
            hid == para_ids_where(ps.subrange(0, p as int), fh).len(),
            visible + hid <= crate::doc::paragraph_sentences(ps.subrange(0, p as int)).len(),
            crate::doc::paragraph_sentences(ps).len() <= usize::MAX,
        decreases ps.len() - p,
    {
        let para = &doc.paragraphs[p];
        assert(ps[p as int] == para@);
        let ghost pv = para@;
        let ghost pre = ps.subrange(0, p as int);
        proof {
            assert(ps.subrange(0, p + 1) =~= pre.push(pv));
            crate::doc::lemma_paragraph_words_push(pre, pv);
            lemma_para_ids_where_push(pre, fv, pv);
            lemma_para_ids_where_push(pre, fh, pv);
            lemma_paragraph_sentences_prefix(ps, p + 1);
        }
        let ghost v0 = visible as int;
        let ghost h0 = hid as int;
        let ghost base = crate::doc::paragraph_sentences(pre).len();
        let mut i: usize = 0;
        while i < para.sentences.len()
            invariant
                pv == para@,
                fv == (|s: SentenceView| s.words.len() > 0 && !strings_view(hidden@).contains(s.id)),
                fh == (|s: SentenceView| s.words.len() > 0 && strings_view(hidden@).contains(s.id)),
                0 <= i <= pv.sentences.len(),
                visible == v0 + ids_where(pv.sentences.subrange(0, i as int), fv).len(),
                hid == h0 + ids_where(pv.sentences.subrange(0, i as int), fh).len(),
                v0 + h0 <= base,
                visible + hid <= base + i,
                base + pv.sentences.len() <= usize::MAX,
            decreases pv.sentences.len() - i,
        {
            let st = &para.sentences[i];
            assert(pv.sentences[i as int] == st@);
            proof {
                assert(pv.sentences.subrange(0, i + 1) =~= pv.sentences.subrange(0, i as int).push(st@));
                lemma_ids_where_push(pv.sentences.subrange(0, i as int), fv, st@);
                lemma_ids_where_push(pv.sentences.subrange(0, i as int), fh, st@);
            }
            if st.words.len() > 0 {
                if contains_id(hidden, st.id.as_str()) {
                    hid = hid + 1;
                } else {
                    visible = visible + 1;
                }
            }
            i = i + 1;
        }
        assert(pv.sentences.subrange(0, i as int) =~= pv.sentences);
        p = p + 1;
    }
    assert(ps.subrange(0, p as int) =~= ps);
    (visible, hid)
}

/// `hay` holds the lower-cased query `q`, ignoring case.
pub open spec fn hits(hay: Seq<char>, q: Seq<char>) -> bool {
    contains_seq(lowercase_of(hay), q)
}

/// A paragraph's speaker holds the query.
pub open spec fn speaker_hit(speaker: Option<Seq<char>>, q: Seq<char>) -> bool {
    match speaker {
        Some(s) => hits(s, q),
        None => false,
    }
}

/// The stored translation of cue `id` into `l` holds the query.
pub open spec fn translation_hit(ts: Seq<TranslationTrack>, l: Seq<char>, id: Seq<char>, q: Seq<char>) -> bool {
    tracks_map(ts).contains_key(l) && tracks_map(ts)[l].contains_key(id) && hits(tracks_map(ts)[l][id].text, q)
}

/// A project matches a search when the trimmed, lower-cased query is empty
/// or occurs, ignoring case, in its id, title, description, a speaker, a
/// cue's text or a stored translation.
pub open spec fn project_matches_spec(doc: Doc, query: Seq<char>) -> bool {
    let q = lowercase_of(trimmed(query));
    let ps = doc.paragraphs_v();
    ||| q.len() == 0
    ||| hits(doc.id@, q)
    ||| hits(doc.meta.title@, q)
    ||| hits(doc.meta.description@, q)
    ||| exists|p: int| 0 <= p < ps.len() && #[trigger] speaker_hit(ps[p].speaker, q)
    ||| exists|p: int, i: int|
        0 <= p < ps.len() && 0 <= i < ps[p].sentences.len() && #[trigger] hits(ps[p].sentences[i].text, q)
    ||| exists|l: Seq<char>, id: Seq<char>| #[trigger] translation_hit(doc.translations@, l, id, q)
}

fn hit(hay: &str, q: &str) -> (r: bool)
    ensures
        r == hits(hay@, q@),
{
    let l = lowercase(hay);
    contains_text(l.as_str(), q)
}

fn is_last_of_lang(ts: &Vec<TranslationTrack>, t: usize) -> (r: bool)
    requires
        t < ts@.len(),
    ensures
        r == last_of_lang(ts@, t as int),
{
    let n = ts.len();
    let mut j: usize = t + 1;
    while j < ts.len()
        invariant
            t < j <= ts@.len(),
            forall|k: int| t < k < j ==> #[trigger] ts@[k].lang@ != ts@[t as int].lang@,
        decreases ts@.len() - j,
    {
        if crate::text::str_eq(ts[j].lang.as_str(), ts[t].lang.as_str()) {
            return false;
        }
        j = j + 1;
    }
    true
}

fn is_last_of_key(es: &Vec<(String, crate::doc::TranslationGroup)>, k: usize) -> (r: bool)
    requires
        k < es@.len(),
    ensures
        r == last_of_key(es@, k as int),
{
    let n = es.len();
    let mut j: usize = k + 1;
    while j < es.len()
        invariant
            k < j <= es@.len(),
            forall|m: int| k < m < j ==> #[trigger] es@[m].0@ != es@[k as int].0@,
        decreases es@.len() - j,
    {
        if crate::text::str_eq(es[j].0.as_str(), es[k].0.as_str()) {
            return false;
        }
        j = j + 1;
    }
    true
}

/// Whether some stored translation holds the query.
fn any_translation_hit(ts: &Vec<TranslationTrack>, q: &str) -> (r: bool)
    ensures
        r == exists|l: Seq<char>, id: Seq<char>| #[trigger] translation_hit(ts@, l, id, q@),
{
    let mut t: usize = 0;
    while t < ts.len()
        invariant
            0 <= t <= ts@.len(),
            forall|a: int, k: int|
                0 <= a < t && 0 <= k < ts@[a].entries@.len() && last_of_lang(ts@, a) && last_of_key(
                    ts@[a].entries@,
                    k,
                ) ==> !hits(#[trigger] ts@[a].entries@[k].1@.text, q@),
        decreases ts@.len() - t,
    {
        if is_last_of_lang(ts, t) {
            let es = &ts[t].entries;
            let mut k: usize = 0;
            while k < es.len()
                invariant
                    t < ts@.len(),
                    es == ts@[t as int].entries,
                    last_of_lang(ts@, t as int),
                    0 <= k <= es@.len(),
                    forall|m: int|
                        0 <= m < k && last_of_key(es@, m) ==> !hits(#[trigger] es@[m].1@.text, q@),
                decreases es@.len() - k,
            {
                if is_last_of_key(es, k) && hit(es[k].1.text.as_str(), q) {
                    proof {
                        let l = ts@[t as int].lang@;
                        let id = es@[k as int].0@;
                        lemma_tracks_map_last(ts@, l);
                        lemma_entries_map_last(es@, id);
                        assert(translation_hit(ts@, l, id, q@));
                    }
                    return true;
                }
                k = k + 1;
            }
        }
        t = t + 1;
    }
    proof {
        assert forall|l: Seq<char>, id: Seq<char>| !#[trigger] translation_hit(ts@, l, id, q@) by {
            lemma_tracks_map_last(ts@, l);
            if tracks_map(ts@).contains_key(l) {
                let a = choose|a: int| 0 <= a < ts@.len() && #[trigger] ts@[a].lang@ == l && last_of_lang(ts@, a);
                lemma_entries_map_last(ts@[a].entries@, id);
                if entries_map(ts@[a].entries@).contains_key(id) {
                    let k = choose|k: int|
                        0 <= k < ts@[a].entries@.len() && #[trigger] ts@[a].entries@[k].0@ == id && last_of_key(
                            ts@[a].entries@,
                            k,
                        );
                    assert(!hits(ts@[a].entries@[k].1@.text, q@));
                }
            }
        }
    }
    false
}

/// Whether a project matches a search query (see `project_matches_spec`).
pub fn project_matches(doc: &Doc, query: &str) -> (r: bool)
    ensures
        r == project_matches_spec(*doc, query@),
{
    let q = lowercase(trim(query));
    if q.unicode_len() == 0 {
        return true;
    }
    if hit(doc.id.as_str(), q.as_str()) || hit(doc.meta.title.as_str(), q.as_str()) || hit(
        doc.meta.description.as_str(),
        q.as_str(),
    ) {
        return true;
    }
    let ghost ps = doc.paragraphs_v();
    let mut p: usize = 0;
    while p < doc.paragraphs.len()
        invariant
            ps == doc.paragraphs_v(),
            q@ == lowercase_of(trimmed(query@)),
            0 <= p <= ps.len(),
            forall|a: int| 0 <= a < p ==> !#[trigger] speaker_hit(ps[a].speaker, q@),
            forall|a: int, i: int|
                0 <= a < p && 0 <= i < ps[a].sentences.len() ==> !#[trigger] hits(ps[a].sentences[i].text, q@),
        decreases ps.len() - p,
    {
        let para = &doc.paragraphs[p];
        assert(ps[p as int] == para@);
        match &para.speaker {
            Some(s) => {
                if hit(s.as_str(), q.as_str()) {
                    assert(speaker_hit(ps[p as int].speaker, q@));
                    return true;
                }
            },
            None => {},
        }
        let mut i: usize = 0;
        while i < para.sentences.len()
            invariant
                ps == doc.paragraphs_v(),
                p < ps.len(),
                ps[p as int] == para@,
                q@ == lowercase_of(trimmed(query@)),
                0 <= i <= para@.sentences.len(),
                forall|k: int| 0 <= k < i ==> !#[trigger] hits(ps[p as int].sentences[k].text, q@),
            decreases para@.sentences.len() - i,
        {
            assert(ps[p as int].sentences[i as int] == para.sentences@[i as int]@);
            if hit(para.sentences[i].text.as_str(), q.as_str()) {
                assert(hits(ps[p as int].sentences[i as int].text, q@));
                return true;
            }
            i = i + 1;
        }
        p = p + 1;
    }
    any_translation_hit(&doc.translations, q.as_str())
}

} // verus!
