//! Paths of the platform that the library is built for.
//!
//! A path is held as the standard library has it, and what it holds is spoken
//! of as bytes: those of its text in UTF-8, or whatever else the platform
//! allows there. What joining paths and taking them apart gives depends on the
//! platform: for Unix it is spelled out here; for Windows it is where a path is
//! only put behind another, and else has a name.

use std::path::PathBuf;

use vstd::prelude::*;
use vstd::string::*;
use vstd::utf8::*;

verus! {

/// A path of the standard library.
#[verifier::external_type_specification]
#[verifier::external_body]
pub struct ExPathBuf(std::path::PathBuf);

/// The bytes of a path.
pub uninterp spec fn path_bytes(path: std::path::PathBuf) -> Seq<u8>;

// ---------------------------------------------------------------------------
// The platform
// ---------------------------------------------------------------------------

/// The platform that the library runs on, Unix or Windows. There is no value of
/// it but the one that [`Platform::current`] gives.
#[derive(Debug, Clone, Copy)]
pub struct Platform {
    unix: bool,
}

/// `std::path::is_separator` tells whether a character separates the parts of a
/// path. What it answers is up to the platform.
pub assume_specification[ std::path::is_separator ](c: char) -> (r: bool)
;

impl Platform {
    /// The platform is Unix.
    pub closed spec fn unix(self) -> bool {
        self.unix
    }

    /// The platform that the library runs on: on Windows a backslash separates
    /// the parts of a path, on Unix it does not.
    pub fn current() -> (r: Platform) {
        Platform { unix: !std::path::is_separator('\\') }
    }

    /// Whether the platform is Unix.
    pub fn is_unix(self) -> (r: bool)
        ensures
            r == self.unix(),
    {
        self.unix
    }
}

// ---------------------------------------------------------------------------
// Paths of Unix
// ---------------------------------------------------------------------------

/// A path from the root.
pub open spec fn absolute(path: Seq<u8>) -> bool {
    path.len() > 0 && path[0] == 0x2f
}

/// `part` seen from `base`: `part` itself where it is absolute, else the two
/// with one separator between them.
pub open spec fn joined(base: Seq<u8>, part: Seq<u8>) -> Seq<u8> {
    if absolute(part) {
        part
    } else if base.len() == 0 || base.last() == 0x2f {
        base + part
    } else {
        base.push(0x2f) + part
    }
}

/// The position behind the last `b` of `s`, zero without one.
pub open spec fn behind_last(s: Seq<u8>, b: u8) -> int
    decreases s.len(),
{
    if s.len() == 0 {
        0
    } else if s.last() == b {
        s.len() as int
    } else {
        behind_last(s.drop_last(), b)
    }
}

/// `path` without what does not count at its end: separators, and the part `.`
/// behind a separator.
pub open spec fn without_tail(path: Seq<u8>) -> Seq<u8>
    decreases path.len(),
{
    if path.len() > 0 && path.last() == 0x2f {
        without_tail(path.drop_last())
    } else if path.len() > 1 && path.last() == 0x2e && path[path.len() - 2] == 0x2f {
        without_tail(path.drop_last())
    } else {
        path
    }
}

/// The directory part of a path: what stands before its last part, the root
/// where that is all; nothing where the path has no part.
pub open spec fn directory(path: Seq<u8>) -> Option<Seq<u8>> {
    let whole = without_tail(path);
    let at = behind_last(whole, 0x2f);
    let dir = without_tail(whole.take(at));
    if whole.len() == 0 {
        None
    } else if at > 0 && dir.len() == 0 {
        Some(seq![0x2fu8])
    } else {
        Some(dir)
    }
}

/// The extension of the file that a path names: what stands behind the last
/// dot of its last part; nothing where that has no dot but at its start, or is
/// the parent directory.
pub open spec fn extension(path: Seq<u8>) -> Option<Seq<u8>> {
    let whole = without_tail(path);
    let name = whole.skip(behind_last(whole, 0x2f));
    let at = behind_last(name, 0x2e);
    if at <= 1 || name == seq![0x2eu8, 0x2eu8] {
        None
    } else {
        Some(name.skip(at))
    }
}

/// `path` with repeated separators taken as one.
pub open spec fn squeezed(path: Seq<u8>) -> Seq<u8>
    decreases path.len(),
{
    if path.len() < 2 {
        path
    } else if path.last() == 0x2f && path[path.len() - 2] == 0x2f {
        squeezed(path.drop_last())
    } else {
        squeezed(path.drop_last()).push(path.last())
    }
}

/// Paths that differ in nothing but repeated separators do so still with the
/// same bytes behind them.
pub proof fn squeezed_alike(a: Seq<u8>, b: Seq<u8>, tail: Seq<u8>)
    requires
        a.len() > 0,
        b.len() > 0,
        a.last() == b.last(),
        squeezed(a) == squeezed(b),
    ensures
        squeezed(a + tail) == squeezed(b + tail),
    decreases tail.len(),
{
    if tail.len() == 0 {
        assert(a + tail =~= a);
        assert(b + tail =~= b);
    } else {
        let rest = tail.drop_last();
        squeezed_alike(a, b, rest);
        assert((a + tail).drop_last() =~= a + rest);
        assert((b + tail).drop_last() =~= b + rest);
        if rest.len() > 0 {
            assert((a + tail)[(a + tail).len() - 2] == rest.last());
            assert((b + tail)[(b + tail).len() - 2] == rest.last());
        } else {
            assert((a + tail)[(a + tail).len() - 2] == a.last());
            assert((b + tail)[(b + tail).len() - 2] == b.last());
        }
    }
}

/// Bytes as text, where they are UTF-8.
pub open spec fn as_text(bytes: Option<Seq<u8>>) -> Option<Seq<char>> {
    match bytes {
        Some(bytes) => if valid_utf8(bytes) {
            Some(decode_utf8(bytes))
        } else {
            None
        },
        None => None,
    }
}

// ---------------------------------------------------------------------------
// Paths of Windows
// ---------------------------------------------------------------------------

/// A separator of Windows: a slash or a backslash.
pub open spec fn windows_separator(b: u8) -> bool {
    b == 0x2f || b == 0x5c
}

/// A path without a root and without a prefix: it begins with no separator and
/// with no drive.
pub open spec fn windows_relative(path: Seq<u8>) -> bool {
    &&& path.len() > 0 ==> !windows_separator(path[0])
    &&& path.len() > 1 ==> path[1] != 0x3a
}

/// A path that others are put behind as they are: it has no verbatim prefix,
/// `\\?\`, under which they are normalized, and is no bare drive.
pub open spec fn windows_extends(path: Seq<u8>) -> bool {
    &&& path.len() > 2 ==> path[2] != 0x3f
    &&& path.len() == 2 ==> path[1] != 0x3a
}

/// `part` behind `base`, with one separator between them.
pub open spec fn windows_extended(base: Seq<u8>, part: Seq<u8>) -> Seq<u8> {
    if base.len() == 0 || windows_separator(base.last()) {
        base + part
    } else {
        base.push(0x5c) + part
    }
}

/// A byte, a slash in place of a backslash.
pub open spec fn slash_for(b: u8) -> u8 {
    if b == 0x5c {
        0x2f
    } else {
        b
    }
}

/// `path` with slashes in place of backslashes.
pub open spec fn slashed(path: Seq<u8>) -> Seq<u8> {
    Seq::new(path.len(), |i: int| slash_for(path[i]))
}

// ---------------------------------------------------------------------------
// Paths of either platform
// ---------------------------------------------------------------------------

/// What `Path::is_absolute` answers on Windows.
pub uninterp spec fn windows_absolute(path: Seq<u8>) -> bool;

/// What `Path::join` makes on Windows where it does not just put one path
/// behind the other.
pub uninterp spec fn windows_joined(base: Seq<u8>, part: Seq<u8>) -> Seq<u8>;

/// What `Path::extension` finds on Windows.
pub uninterp spec fn windows_extension(path: Seq<u8>) -> Option<Seq<u8>>;

/// What `Path::parent` finds on Windows.
pub uninterp spec fn windows_parent(path: Seq<u8>) -> Option<Seq<u8>>;

/// What `Path::display` shows, on Unix and on Windows.
pub uninterp spec fn path_shown(unix: bool, path: Seq<u8>) -> Seq<char>;

impl Platform {
    /// A path that depends on no other.
    pub open spec fn absolute(self, path: Seq<u8>) -> bool {
        if self.unix() {
            absolute(path)
        } else {
            windows_absolute(path)
        }
    }

    /// `part` seen from `base`.
    pub open spec fn joined(self, base: Seq<u8>, part: Seq<u8>) -> Seq<u8> {
        if self.unix() {
            joined(base, part)
        } else if windows_extends(base) && windows_relative(part) {
            windows_extended(base, part)
        } else {
            windows_joined(base, part)
        }
    }

    /// A path that is seen from another: on Unix one that is not absolute, on
    /// Windows one without a root and without a prefix.
    pub open spec fn relative(self, path: Seq<u8>) -> bool {
        if self.unix() {
            !absolute(path)
        } else {
            windows_relative(path)
        }
    }

    /// A path that relative ones are put behind as they are.
    pub open spec fn extends(self, path: Seq<u8>) -> bool {
        self.unix() || windows_extends(path)
    }

    /// The same path: the two differ in nothing but repeated separators and, on
    /// Windows, in slashes and backslashes.
    pub open spec fn same_path(self, a: Seq<u8>, b: Seq<u8>) -> bool {
        if self.unix() {
            squeezed(a) == squeezed(b)
        } else {
            squeezed(slashed(a)) == squeezed(slashed(b))
        }
    }

    /// The extension of the file that a path names, where it is text.
    pub open spec fn extension(self, path: Seq<u8>) -> Option<Seq<char>> {
        as_text(
            if self.unix() {
                extension(path)
            } else {
                windows_extension(path)
            },
        )
    }

    /// The directory part of a path.
    pub open spec fn directory(self, path: Seq<u8>) -> Option<Seq<u8>> {
        if self.unix() {
            directory(path)
        } else {
            windows_parent(path)
        }
    }

    /// A path as it is shown.
    pub open spec fn shown(self, path: Seq<u8>) -> Seq<char> {
        path_shown(self.unix(), path)
    }
}

/// A text that there may be, seen as characters.
pub open spec fn text_view(text: Option<String>) -> Option<Seq<char>> {
    match text {
        Some(text) => Some(text@),
        None => None,
    }
}

/// A path that there may be, seen as bytes.
pub open spec fn path_view(path: Option<PathBuf>) -> Option<Seq<u8>> {
    match path {
        Some(path) => Some(path_bytes(path)),
        None => None,
    }
}

/// `PathBuf::from` holds a text as it is.
#[verifier::external_body]
pub(crate) fn path_of(text: &str) -> (r: PathBuf)
    ensures
        path_bytes(r) == encode_utf8(text@),
{
    PathBuf::from(text)
}

/// `PathBuf::clone` copies a path.
#[verifier::external_body]
pub(crate) fn copy_path(path: &PathBuf) -> (r: PathBuf)
    ensures
        path_bytes(r) == path_bytes(*path),
{
    path.clone()
}

/// `Path::is_absolute` tells whether a path depends on no other: on Unix, that
/// it begins with the root.
#[verifier::external_body]
pub(crate) fn is_absolute(platform: Platform, path: &PathBuf) -> (r: bool)
    ensures
        platform.unix() ==> r == absolute(path_bytes(*path)),
        !platform.unix() ==> r == windows_absolute(path_bytes(*path)),
{
    path.is_absolute()
}

/// `Path::join` sees a path from another: on Unix an absolute one is kept, and
/// any other put behind the first with a separator where that ends with none; on
/// Windows so is one without a root and without a prefix, unless the first has a
/// verbatim prefix, under which it is normalized, or is a bare drive.
#[verifier::external_body]
pub(crate) fn join(platform: Platform, base: &PathBuf, part: &PathBuf) -> (r: PathBuf)
    ensures
        platform.unix() ==> path_bytes(r) == joined(path_bytes(*base), path_bytes(*part)),
        !platform.unix() && windows_extends(path_bytes(*base)) && windows_relative(
            path_bytes(*part),
        ) ==> path_bytes(r) == windows_extended(path_bytes(*base), path_bytes(*part)),
        !platform.unix() && !(windows_extends(path_bytes(*base)) && windows_relative(
            path_bytes(*part),
        )) ==> path_bytes(r) == windows_joined(path_bytes(*base), path_bytes(*part)),
{
    base.join(part)
}

/// `Path::extension` finds what stands behind the last dot of the last part of
/// a path, where there is something before the dot.
#[verifier::external_body]
fn find_extension(platform: Platform, path: &PathBuf) -> (r: Option<PathBuf>)
    ensures
        platform.unix() ==> path_view(r) == extension(path_bytes(*path)),
        !platform.unix() ==> path_view(r) == windows_extension(path_bytes(*path)),
{
    path.extension().map(|ext| PathBuf::from(ext))
}

/// `Path::to_str` hands out the text of a path where it is UTF-8.
#[verifier::external_body]
fn text_of_path(path: &PathBuf) -> (r: Option<&str>)
    ensures
        r is Some <==> valid_utf8(path_bytes(*path)),
        r matches Some(text) ==> text@ == decode_utf8(path_bytes(*path)),
{
    path.to_str()
}

/// The extension of the file that a path names, where it is text.
pub(crate) fn extension_of(platform: Platform, path: &PathBuf) -> (r: Option<String>)
    ensures
        text_view(r) == platform.extension(path_bytes(*path)),
{
    match find_extension(platform, path) {
        Some(ext) => match text_of_path(&ext) {
            Some(text) => Some(text.to_owned()),
            None => None,
        },
        None => None,
    }
}

/// `Path::parent` finds a path without its last part; there is none of the
/// root, nor of an empty path.
#[verifier::external_body]
pub(crate) fn directory_of(platform: Platform, path: &PathBuf) -> (r: Option<PathBuf>)
    ensures
        platform.unix() ==> path_view(r) == directory(path_bytes(*path)),
        !platform.unix() ==> path_view(r) == windows_parent(path_bytes(*path)),
{
    path.parent().map(|dir| dir.to_path_buf())
}

/// `Path::display` shows a path: what is UTF-8 as it stands.
#[verifier::external_body]
pub(crate) fn show_path(platform: Platform, path: &PathBuf) -> (r: String)
    ensures
        r@ == path_shown(platform.unix(), path_bytes(*path)),
        valid_utf8(path_bytes(*path)) ==> r@ == decode_utf8(path_bytes(*path)),
{
    path.display().to_string()
}

/// `part` seen from `base`, for a part that is text.
pub(crate) fn join_text(platform: Platform, base: &PathBuf, part: &str) -> (r: PathBuf)
    ensures
        path_bytes(r) == platform.joined(path_bytes(*base), encode_utf8(part@)),
{
    join(platform, base, &path_of(part))
}

// ---------------------------------------------------------------------------
// Laws
// ---------------------------------------------------------------------------

/// On Unix a path is absolute, joined and taken apart as Unix does it; on
/// Windows a relative path is put behind another with one separator.
pub proof fn platforms_have_their_paths(platform: Platform, base: Seq<u8>, part: Seq<u8>)
    ensures
        platform.unix() ==> platform.absolute(part) == absolute(part) && platform.joined(base, part)
            == joined(base, part) && platform.directory(part) == directory(part),
        !platform.unix() && windows_extends(base) && windows_relative(part) ==> platform.joined(
            base,
            part,
        ) == windows_extended(base, part),
{
}

/// The extension is the text behind the dot, whole; there is none where there
/// are no such bytes, or where they are no text.
pub proof fn extensions_are_whole(platform: Platform, path: Seq<u8>)
    requires
        platform.unix(),
    ensures
        match extension(path) {
            Some(bytes) => if valid_utf8(bytes) {
                platform.extension(path) == Some(decode_utf8(bytes))
            } else {
                platform.extension(path) is None
            },
            None => platform.extension(path) is None,
        },
{
}

/// Texts and paths are seen whole.
pub proof fn texts_and_paths_are_seen_whole(text: String, path: PathBuf)
    ensures
        text_view(Some(text)) == Some(text@),
        text_view(None) is None,
        path_view(Some(path)) == Some(path_bytes(path)),
        path_view(None) is None,
{
}

} // verus!
