//! Staging image attachments under `.nca/sessions/<id>/attachments/`.

use std::path::PathBuf;

use vstd::prelude::*;
use vstd::string::*;
use vstd::utf8::*;

use crate::path::{
    absolute, copy_path, extension_of, is_absolute, join, join_text, joined, path_bytes, show_path,
    slash_for, slashed, squeezed, squeezed_alike, windows_extended, windows_extends,
    windows_relative, windows_separator, Platform,
};
use crate::text::{
    chars_of, decimal, decimal_reads_back, encoding_of_parts, lower_ascii, lower_chars, number_read, push_decimal, reply_view, same_chars,
    same_ignoring_case,
};

verus! {

/// An image that goes with a message.
#[derive(Debug)]
pub struct ImageAttachment {
    pub media_type: String,
    /// Where the image is, seen from the workspace.
    pub path: String,
}

/// What an [`ImageAttachment`] says.
pub struct ImageAttachmentView {
    pub media_type: Seq<char>,
    pub path: Seq<char>,
}

impl View for ImageAttachment {
    type V = ImageAttachmentView;

    open spec fn view(&self) -> ImageAttachmentView {
        ImageAttachmentView { media_type: self.media_type@, path: self.path@ }
    }
}

// ---------------------------------------------------------------------------
// Names
// ---------------------------------------------------------------------------

/// A file name made of the time, in nanoseconds since 1970; zero where there is
/// no such time.
pub open spec fn timed_name(prefix: Seq<char>, ext: Seq<char>, nanos: Option<u128>) -> Seq<char> {
    let n: u128 = match nanos {
        Some(n) => n,
        None => 0,
    };
    prefix + "-"@ + decimal(n as nat) + "."@ + ext
}

/// The directory of a session's attachments.
pub open spec fn attachments_dir(
    platform: Platform,
    workspace: Seq<u8>,
    session_id: Seq<char>,
) -> Seq<u8> {
    let nca = platform.joined(workspace, encode_utf8(".nca"@));
    let sessions = platform.joined(nca, encode_utf8("sessions"@));
    let session = platform.joined(sessions, encode_utf8(session_id));
    platform.joined(session, encode_utf8("attachments"@))
}

/// Where an attachment is, seen from the workspace.
pub open spec fn relative_path(session_id: Seq<char>, filename: Seq<char>) -> Seq<char> {
    ".nca/sessions/"@ + session_id + "/attachments/"@ + filename
}

/// The media type of an extension, case aside.
pub open spec fn media_type(ext: Seq<char>) -> Seq<char> {
    let e = lower_ascii(ext);
    if e == "png"@ {
        "image/png"@
    } else if e == "jpg"@ || e == "jpeg"@ {
        "image/jpeg"@
    } else if e == "webp"@ {
        "image/webp"@
    } else if e == "gif"@ {
        "image/gif"@
    } else {
        "application/octet-stream"@
    }
}

/// A file name made of the time since 1970.
pub fn nanos_name(prefix: &str, ext: &str, nanos: Option<u128>) -> (r: String)
    ensures
        r@ == timed_name(prefix@, ext@, nanos),
{
    let n: u128 = match nanos {
        Some(n) => n,
        None => 0,
    };
    let mut name = prefix.to_owned().concat("-");
    push_decimal(&mut name, n);
    name.concat(".").concat(ext)
}

/// The directory of a session's attachments.
pub fn session_attachments_dir(platform: Platform, workspace: &PathBuf, session_id: &str) -> (r:
    PathBuf)
    ensures
        path_bytes(r) == attachments_dir(platform, path_bytes(*workspace), session_id@),
{
    let nca = join_text(platform, workspace, ".nca");
    let sessions = join_text(platform, &nca, "sessions");
    let session = join_text(platform, &sessions, session_id);
    join_text(platform, &session, "attachments")
}

/// Where an attachment is, seen from the workspace.
pub fn relative_attachment_path(session_id: &str, filename: &str) -> (r: String)
    ensures
        r@ == relative_path(session_id@, filename@),
{
    ".nca/sessions/".to_owned().concat(session_id).concat("/attachments/").concat(filename)
}

/// Whether `chars` are those of `name`.
fn are(chars: &[char], name: &str) -> (r: bool)
    ensures
        r == (chars@ == name@),
{
    same_chars(chars, chars_of(name).as_slice())
}

/// The media type of an extension.
pub fn media_type_for_extension(ext: &str) -> (r: &'static str)
    ensures
        r@ == media_type(ext@),
{
    let lowered = lower_chars(ext);
    let e = lowered.as_slice();
    if are(e, "png") {
        "image/png"
    } else if are(e, "jpg") || are(e, "jpeg") {
        "image/jpeg"
    } else if are(e, "webp") {
        "image/webp"
    } else if are(e, "gif") {
        "image/gif"
    } else {
        "application/octet-stream"
    }
}

// ---------------------------------------------------------------------------
// Importing a file
// ---------------------------------------------------------------------------

/// What importing an image file comes down to.
#[derive(Debug)]
pub struct ImageImport {
    /// The file to import.
    pub src: PathBuf,
    /// The file to import, as it is shown.
    pub shown: String,
    /// The directory that it goes to.
    pub dir: PathBuf,
    /// The file that it becomes.
    pub dest: PathBuf,
    /// What refers to it then.
    pub attachment: ImageAttachment,
}

/// What an [`ImageImport`] comes down to.
pub struct ImageImportView {
    pub src: Seq<u8>,
    pub shown: Seq<char>,
    pub dir: Seq<u8>,
    pub dest: Seq<u8>,
    pub attachment: ImageAttachmentView,
}

impl View for ImageImport {
    type V = ImageImportView;

    open spec fn view(&self) -> ImageImportView {
        ImageImportView {
            src: path_bytes(self.src),
            shown: self.shown@,
            dir: path_bytes(self.dir),
            dest: path_bytes(self.dest),
            attachment: self.attachment@,
        }
    }
}

/// What is to be done next of an import; each step is answered by whether it
/// worked, and if not, why.
#[derive(Debug)]
pub enum ImportStep {
    /// See that the source is a file.
    CheckFile,
    /// Create the directory, and those above it.
    CreateDir,
    /// Copy the source to its destination.
    Copy,
    /// Nothing: the import has ended.
    Done(Result<ImageAttachment, String>),
}

/// What an [`ImportStep`] is.
pub enum ImportStepView {
    CheckFile,
    CreateDir,
    Copy,
    Done(Result<ImageAttachmentView, Seq<char>>),
}

impl View for ImportStep {
    type V = ImportStepView;

    open spec fn view(&self) -> ImportStepView {
        match self {
            ImportStep::CheckFile => ImportStepView::CheckFile,
            ImportStep::CreateDir => ImportStepView::CreateDir,
            ImportStep::Copy => ImportStepView::Copy,
            ImportStep::Done(Ok(attachment)) => ImportStepView::Done(Ok(attachment@)),
            ImportStep::Done(Err(why)) => ImportStepView::Done(Err(why@)),
        }
    }
}

/// The extension of the source, `bin` without one.
pub open spec fn import_extension(platform: Platform, src: Seq<u8>) -> Seq<char> {
    match platform.extension(src) {
        Some(ext) => ext,
        None => "bin"@,
    }
}

/// The import of `src`, seen from the workspace, into a session.
pub open spec fn import_of(
    platform: Platform,
    workspace: Seq<u8>,
    session_id: Seq<char>,
    src: Seq<u8>,
    nanos: Option<u128>,
) -> ImageImportView {
    let from = if platform.absolute(src) {
        src
    } else {
        platform.joined(workspace, src)
    };
    let filename = timed_name("import"@, import_extension(platform, from), nanos);
    let dir = attachments_dir(platform, workspace, session_id);
    ImageImportView {
        src: from,
        shown: platform.shown(from),
        dir,
        dest: platform.joined(dir, encode_utf8(filename)),
        attachment: ImageAttachmentView {
            media_type: media_type(import_extension(platform, from)),
            path: relative_path(session_id, filename),
        },
    }
}

/// The step after `step`, once that was answered.
pub open spec fn import_next(
    plan: ImageImportView,
    step: ImportStepView,
    reply: Result<(), Seq<char>>,
) -> ImportStepView {
    match (step, reply) {
        (ImportStepView::CheckFile, Ok(_)) => ImportStepView::CreateDir,
        (ImportStepView::CheckFile, Err(_)) => ImportStepView::Done(
            Err("not a file: "@ + plan.shown),
        ),
        (ImportStepView::CreateDir, Ok(_)) => ImportStepView::Copy,
        (ImportStepView::CreateDir, Err(why)) => ImportStepView::Done(
            Err("create attachments dir: "@ + why),
        ),
        (ImportStepView::Copy, Ok(_)) => ImportStepView::Done(Ok(plan.attachment)),
        (ImportStepView::Copy, Err(why)) => ImportStepView::Done(Err("copy image: "@ + why)),
        (ImportStepView::Done(result), _) => ImportStepView::Done(result),
    }
}

/// Plans the import of a user file into a session's attachment directory.
pub fn plan_import(
    platform: Platform,
    workspace: &PathBuf,
    session_id: &str,
    src: &PathBuf,
    nanos: Option<u128>,
) -> (r: ImageImport)
    ensures
        r@ == import_of(platform, path_bytes(*workspace), session_id@, path_bytes(*src), nanos),
        valid_utf8(r@.src) ==> r@.shown == decode_utf8(r@.src),
{
    let from = if is_absolute(platform, src) {
        copy_path(src)
    } else {
        join(platform, workspace, src)
    };
    let ext = match extension_of(platform, &from) {
        Some(ext) => ext,
        None => "bin".to_owned(),
    };
    let media_type = media_type_for_extension(ext.as_str()).to_owned();
    let filename = nanos_name("import", ext.as_str(), nanos);
    let dir = session_attachments_dir(platform, workspace, session_id);
    let dest = join_text(platform, &dir, filename.as_str());
    let path = relative_attachment_path(session_id, filename.as_str());
    let shown = show_path(platform, &from);
    ImageImport { src: from, shown, dir, dest, attachment: ImageAttachment { media_type, path } }
}

/// Copies a user file into the session's attachment directory: the step after
/// `step`, once that was answered. Starts with [`ImportStep::CheckFile`]; ends
/// with the attachment, or with the error of the step that failed.
pub fn import_image_file(plan: &ImageImport, step: ImportStep, reply: Result<(), String>) -> (r:
    ImportStep)
    ensures
        r@ == import_next(plan@, step@, reply_view(reply)),
{
    match (step, reply) {
        (ImportStep::CheckFile, Ok(_)) => ImportStep::CreateDir,
        (ImportStep::CheckFile, Err(_)) => ImportStep::Done(
            Err("not a file: ".to_owned().concat(plan.shown.as_str())),
        ),
        (ImportStep::CreateDir, Ok(_)) => ImportStep::Copy,
        (ImportStep::CreateDir, Err(why)) => ImportStep::Done(
            Err("create attachments dir: ".to_owned().concat(why.as_str())),
        ),
        (ImportStep::Copy, Ok(_)) => ImportStep::Done(
            Ok(
                ImageAttachment {
                    media_type: plan.attachment.media_type.clone(),
                    path: plan.attachment.path.clone(),
                },
            ),
        ),
        (ImportStep::Copy, Err(why)) => ImportStep::Done(
            Err("copy image: ".to_owned().concat(why.as_str())),
        ),
        (ImportStep::Done(result), _) => ImportStep::Done(result),
    }
}

// ---------------------------------------------------------------------------
// Pasting from the clipboard
// ---------------------------------------------------------------------------

/// An image of the `image` crate.
#[verifier::external_type_specification]
#[verifier::external_body]
pub struct ExDynamicImage(image::DynamicImage);

/// The samples of an eight-bit RGBA image, row by row.
pub uninterp spec fn rgba_samples(image: image::DynamicImage) -> Seq<u8>;

/// The width and the height that an image was made with.
pub uninterp spec fn image_size(image: image::DynamicImage) -> (u32, u32);

/// Four samples for each pixel are no more than there are, and no more than
/// `usize` counts.
pub open spec fn fits_samples(width: u32, height: u32, count: nat) -> bool {
    &&& 4 * width <= usize::MAX
    &&& 4 * width * height <= usize::MAX
    &&& 4 * width * height <= count
}

/// `ImageBuffer::from_raw` makes an RGBA image of a width, a height and the
/// samples; there is none where four samples for each pixel are more than it
/// was handed, or more than `usize` counts. `DynamicImage::ImageRgba8` holds
/// the image as it is.
#[verifier::external_body]
fn rgba_image(width: u32, height: u32, samples: Vec<u8>) -> (r: Option<image::DynamicImage>)
    ensures
        r is Some == fits_samples(width, height, samples@.len()),
        r matches Some(image) ==> rgba_samples(image) == samples@,
        r matches Some(image) ==> image_size(image) == (width, height),
{
    image::ImageBuffer::from_raw(width, height, samples).map(image::DynamicImage::ImageRgba8)
}

/// A size as the clipboard's image has it: its lower thirty-two bits.
pub open spec fn pixels(size: usize) -> int {
    size as int % 0x1_0000_0000
}

/// The number of samples that an image of the clipboard takes.
pub open spec fn sample_count(width: usize, height: usize) -> int {
    pixels(width) * pixels(height) * 4
}

/// Why an image of the clipboard is refused: its dimensions overflow, it has
/// too few samples, or no image can be made of it.
pub open spec fn clipboard_refusal(width: usize, height: usize, count: nat) -> Option<Seq<char>> {
    if sample_count(width, height) > usize::MAX {
        Some("clipboard image dimensions overflow"@)
    } else if count < sample_count(width, height) {
        Some("clipboard image buffer too small"@)
    } else if 4 * pixels(width) > usize::MAX {
        Some("invalid clipboard image buffer"@)
    } else {
        None
    }
}

/// The lower thirty-two bits of a size.
fn lower_bits(size: usize) -> (r: u32)
    ensures
        r == pixels(size),
{
    let wide: u64 = size as u64;
    assert(wide as u32 == wide % 0x1_0000_0000) by (bit_vector);
    #[verifier::truncate]
    (wide as u32)
}

/// Makes an image of what the clipboard holds: its first samples, as many as
/// its size takes.
pub fn clipboard_image(width: usize, height: usize, bytes: &[u8]) -> (r: Result<
    image::DynamicImage,
    String,
>)
    ensures
        match r {
            Ok(image) => {
                &&& clipboard_refusal(width, height, bytes@.len()) is None
                &&& image_size(image) == (pixels(width) as u32, pixels(height) as u32)
                &&& rgba_samples(image) == bytes@.take(sample_count(width, height))
            },
            Err(why) => clipboard_refusal(width, height, bytes@.len()) == Some(why@),
        },
{
    let w: u32 = lower_bits(width);
    let h: u32 = lower_bits(height);
    let area: Option<usize> = (w as usize).checked_mul(h as usize);
    let expected: Option<usize> = match area {
        Some(n) => n.checked_mul(4),
        None => None,
    };
    assert(0 <= w * h) by (nonlinear_arith);
    match expected {
        None => Err("clipboard image dimensions overflow".to_owned()),
        Some(count) => {
            if bytes.len() < count {
                return Err("clipboard image buffer too small".to_owned());
            }
            let samples = vstd::slice::slice_to_vec(vstd::slice::slice_subrange(bytes, 0, count));
            assert(samples@ =~= bytes@.take(count as int));
            assert(4 * w * h == w * h * 4) by (nonlinear_arith);
            match rgba_image(w, h, samples) {
                Some(image) => Ok(image),
                None => Err("invalid clipboard image buffer".to_owned()),
            }
        },
    }
}

/// What pasting an image comes down to, once it is read.
#[derive(Debug)]
pub struct ClipboardPaste {
    /// The directory that it goes to.
    pub dir: PathBuf,
    /// The file that it becomes.
    pub dest: PathBuf,
    /// What refers to it then.
    pub attachment: ImageAttachment,
}

/// What a [`ClipboardPaste`] comes down to.
pub struct ClipboardPasteView {
    pub dir: Seq<u8>,
    pub dest: Seq<u8>,
    pub attachment: ImageAttachmentView,
}

impl View for ClipboardPaste {
    type V = ClipboardPasteView;

    open spec fn view(&self) -> ClipboardPasteView {
        ClipboardPasteView {
            dir: path_bytes(self.dir),
            dest: path_bytes(self.dest),
            attachment: self.attachment@,
        }
    }
}

/// What is to be done next of a paste; each step is answered by whether it
/// worked, and if not, why.
#[derive(Debug)]
pub enum PasteStep {
    /// Open the clipboard.
    OpenClipboard,
    /// Read an image from it.
    ReadImage,
    /// Make an image of what was read: see [`clipboard_image`].
    MakeImage,
    /// Create the directory, and those above it.
    CreateDir,
    /// Save the image as PNG at its destination.
    Save,
    /// Nothing: the paste has ended.
    Done(Result<ImageAttachment, String>),
}

/// What a [`PasteStep`] is.
pub enum PasteStepView {
    OpenClipboard,
    ReadImage,
    MakeImage,
    CreateDir,
    Save,
    Done(Result<ImageAttachmentView, Seq<char>>),
}

impl View for PasteStep {
    type V = PasteStepView;

    open spec fn view(&self) -> PasteStepView {
        match self {
            PasteStep::OpenClipboard => PasteStepView::OpenClipboard,
            PasteStep::ReadImage => PasteStepView::ReadImage,
            PasteStep::MakeImage => PasteStepView::MakeImage,
            PasteStep::CreateDir => PasteStepView::CreateDir,
            PasteStep::Save => PasteStepView::Save,
            PasteStep::Done(Ok(attachment)) => PasteStepView::Done(Ok(attachment@)),
            PasteStep::Done(Err(why)) => PasteStepView::Done(Err(why@)),
        }
    }
}

/// The paste of an image into a session.
pub open spec fn paste_of(
    platform: Platform,
    workspace: Seq<u8>,
    session_id: Seq<char>,
    nanos: Option<u128>,
) -> ClipboardPasteView {
    let filename = timed_name("paste"@, "png"@, nanos);
    let dir = attachments_dir(platform, workspace, session_id);
    ClipboardPasteView {
        dir,
        dest: platform.joined(dir, encode_utf8(filename)),
        attachment: ImageAttachmentView {
            media_type: "image/png"@,
            path: relative_path(session_id, filename),
        },
    }
}

/// The step after `step`, once that was answered.
pub open spec fn paste_next(
    plan: ClipboardPasteView,
    step: PasteStepView,
    reply: Result<(), Seq<char>>,
) -> PasteStepView {
    match (step, reply) {
        (PasteStepView::OpenClipboard, Ok(_)) => PasteStepView::ReadImage,
        (PasteStepView::OpenClipboard, Err(why)) => PasteStepView::Done(Err("clipboard: "@ + why)),
        (PasteStepView::ReadImage, Ok(_)) => PasteStepView::MakeImage,
        (PasteStepView::ReadImage, Err(why)) => PasteStepView::Done(
            Err("clipboard has no image (try /image <path>): "@ + why),
        ),
        (PasteStepView::MakeImage, Ok(_)) => PasteStepView::CreateDir,
        (PasteStepView::MakeImage, Err(why)) => PasteStepView::Done(Err(why)),
        (PasteStepView::CreateDir, Ok(_)) => PasteStepView::Save,
        (PasteStepView::CreateDir, Err(why)) => PasteStepView::Done(
            Err("create attachments dir: "@ + why),
        ),
        (PasteStepView::Save, Ok(_)) => PasteStepView::Done(Ok(plan.attachment)),
        (PasteStepView::Save, Err(why)) => PasteStepView::Done(Err("save png: "@ + why)),
        (PasteStepView::Done(result), _) => PasteStepView::Done(result),
    }
}

/// Plans the paste of an image into a session's attachment directory.
pub fn plan_paste(
    platform: Platform,
    workspace: &PathBuf,
    session_id: &str,
    nanos: Option<u128>,
) -> (r: ClipboardPaste)
    ensures
        r@ == paste_of(platform, path_bytes(*workspace), session_id@, nanos),
{
    let filename = nanos_name("paste", "png", nanos);
    let dir = session_attachments_dir(platform, workspace, session_id);
    let dest = join_text(platform, &dir, filename.as_str());
    let path = relative_attachment_path(session_id, filename.as_str());
    ClipboardPaste {
        dir,
        dest,
        attachment: ImageAttachment { media_type: "image/png".to_owned(), path },
    }
}

/// Stores an image of the clipboard as PNG under the session: the step after
/// `step`, once that was answered. Starts with [`PasteStep::OpenClipboard`];
/// ends with the attachment, or with the error of the step that failed.
pub fn paste_clipboard_image(plan: &ClipboardPaste, step: PasteStep, reply: Result<(), String>) -> (r:
    PasteStep)
    ensures
        r@ == paste_next(plan@, step@, reply_view(reply)),
{
    match (step, reply) {
        (PasteStep::OpenClipboard, Ok(_)) => PasteStep::ReadImage,
        (PasteStep::OpenClipboard, Err(why)) => PasteStep::Done(
            Err("clipboard: ".to_owned().concat(why.as_str())),
        ),
        (PasteStep::ReadImage, Ok(_)) => PasteStep::MakeImage,
        (PasteStep::ReadImage, Err(why)) => PasteStep::Done(
            Err("clipboard has no image (try /image <path>): ".to_owned().concat(why.as_str())),
        ),
        (PasteStep::MakeImage, Ok(_)) => PasteStep::CreateDir,
        (PasteStep::MakeImage, Err(why)) => PasteStep::Done(Err(why)),
        (PasteStep::CreateDir, Ok(_)) => PasteStep::Save,
        (PasteStep::CreateDir, Err(why)) => PasteStep::Done(
            Err("create attachments dir: ".to_owned().concat(why.as_str())),
        ),
        (PasteStep::Save, Ok(_)) => PasteStep::Done(
            Ok(
                ImageAttachment {
                    media_type: plan.attachment.media_type.clone(),
                    path: plan.attachment.path.clone(),
                },
            ),
        ),
        (PasteStep::Save, Err(why)) => PasteStep::Done(
            Err("save png: ".to_owned().concat(why.as_str())),
        ),
        (PasteStep::Done(result), _) => PasteStep::Done(result),
    }
}

/// The answer to a paste where there is no clipboard to read.
pub fn clipboard_unavailable() -> (r: Result<ImageAttachment, String>)
    ensures
        r is Err,
        r->Err_0@
            == "clipboard not available in this build (compiled without clipboard feature)"@,
{
    Err("clipboard not available in this build (compiled without clipboard feature)".to_owned())
}

// ---------------------------------------------------------------------------
// Laws
// ---------------------------------------------------------------------------

/// A session name that ends with no separator.
pub open spec fn names_parts(session_id: Seq<char>) -> bool {
    session_id.len() > 0 && encode_utf8(session_id).last() != 0x2f
}

/// The bytes of the fixed parts of an attachment's path.
proof fn fixed_parts()
    ensures
        encode_utf8(".nca"@) == seq![0x2eu8, 0x6e, 0x63, 0x61],
        encode_utf8("sessions"@) == seq![0x73u8, 0x65, 0x73, 0x73, 0x69, 0x6f, 0x6e, 0x73],
        encode_utf8("attachments"@).len() == 11,
        encode_utf8("attachments"@)[0] == 0x61,
        encode_utf8("attachments"@)[1] == 0x74,
        encode_utf8("attachments"@).last() == 0x73,
        encode_utf8(".nca/sessions/"@) == encode_utf8(".nca"@).push(0x2f) + encode_utf8(
            "sessions"@,
        ).push(0x2f),
        encode_utf8("/attachments/"@) == seq![0x2fu8] + encode_utf8("attachments"@).push(0x2f),
{
    reveal_strlit(".nca");
    reveal_strlit("sessions");
    reveal_strlit("attachments");
    reveal_strlit(".nca/sessions/");
    reveal_strlit("/attachments/");
    is_ascii_chars_encode_utf8(".nca"@);
    is_ascii_chars_encode_utf8("sessions"@);
    is_ascii_chars_encode_utf8("attachments"@);
    is_ascii_chars_encode_utf8(".nca/sessions/"@);
    is_ascii_chars_encode_utf8("/attachments/"@);
    assert(encode_utf8(".nca"@) =~= seq![0x2eu8, 0x6e, 0x63, 0x61]);
    assert(encode_utf8("sessions"@) =~= seq![0x73u8, 0x65, 0x73, 0x73, 0x69, 0x6f, 0x6e, 0x73]);
    assert(encode_utf8(".nca/sessions/"@) =~= encode_utf8(".nca"@).push(0x2f) + encode_utf8(
        "sessions"@,
    ).push(0x2f));
    assert(encode_utf8("/attachments/"@) =~= seq![0x2fu8] + encode_utf8("attachments"@).push(
        0x2f,
    ));
}

/// The path of an attachment, seen from the workspace, names the file in the
/// session's attachment directory, for every session name and file name that
/// are seen from another path; on Unix the two are the same to the byte where
/// the session name ends with no separator. Left out, on Windows, are a
/// workspace with a verbatim prefix and one that is a bare drive.
pub proof fn reference_leads_to_file(
    platform: Platform,
    workspace: Seq<u8>,
    session_id: Seq<char>,
    filename: Seq<char>,
)
    requires
        platform.extends(workspace),
        platform.relative(encode_utf8(session_id)),
        platform.relative(encode_utf8(filename)),
    ensures
        ({
            let reference = platform.joined(
                workspace,
                encode_utf8(relative_path(session_id, filename)),
            );
            let file = platform.joined(
                attachments_dir(platform, workspace, session_id),
                encode_utf8(filename),
            );
            &&& platform.same_path(reference, file)
            &&& workspace.is_prefix_of(reference)
            &&& workspace.is_prefix_of(file)
            &&& platform.unix() && names_parts(session_id) ==> reference == file
        }),
{
    if platform.unix() {
        reference_on_unix(platform, workspace, session_id, filename);
    } else {
        reference_on_windows(platform, workspace, session_id, filename);
    }
}

/// The bytes of an attachment's path, seen from the workspace.
proof fn reference_bytes(session_id: Seq<char>, filename: Seq<char>)
    ensures
        encode_utf8(relative_path(session_id, filename)) == encode_utf8(".nca"@).push(0x2f)
            + encode_utf8("sessions"@).push(0x2f) + encode_utf8(session_id) + seq![0x2fu8]
            + encode_utf8("attachments"@).push(0x2f) + encode_utf8(filename),
{
    fixed_parts();
    let head = ".nca/sessions/"@;
    let mid = "/attachments/"@;
    encoding_of_parts(head, session_id);
    encoding_of_parts(head + session_id, mid);
    encoding_of_parts(head + session_id + mid, filename);
    assert(encode_utf8(relative_path(session_id, filename)) =~= encode_utf8(".nca"@).push(0x2f)
        + encode_utf8("sessions"@).push(0x2f) + encode_utf8(session_id) + seq![0x2fu8]
        + encode_utf8("attachments"@).push(0x2f) + encode_utf8(filename));
}

/// The directory of a session on Unix, as it is joined.
#[verifier::opaque]
spec fn unix_session(workspace: Seq<u8>, id: Seq<u8>) -> Seq<u8> {
    let base = if workspace.len() == 0 || workspace.last() == 0x2f {
        workspace
    } else {
        workspace.push(0x2f)
    };
    base + encode_utf8(".nca"@).push(0x2f) + encode_utf8("sessions"@).push(0x2f) + id
}

proof fn dir_on_unix(platform: Platform, workspace: Seq<u8>, session_id: Seq<char>)
    requires
        platform.unix(),
        !absolute(encode_utf8(session_id)),
    ensures
        ({
            let session = unix_session(workspace, encode_utf8(session_id));
            let attachments = encode_utf8("attachments"@);
            attachments_dir(platform, workspace, session_id) == if session.last() == 0x2f {
                session + attachments
            } else {
                session.push(0x2f) + attachments
            }
        }),
{
    fixed_parts();
    let nca = encode_utf8(".nca"@);
    let sessions = encode_utf8("sessions"@);
    let base = if workspace.len() == 0 || workspace.last() == 0x2f {
        workspace
    } else {
        workspace.push(0x2f)
    };
    let d1 = joined(workspace, nca);
    assert(d1 =~= base + nca);
    let d2 = joined(d1, sessions);
    assert(d2 =~= base + nca.push(0x2f) + sessions);
    let d3 = joined(d2, encode_utf8(session_id));
    reveal(unix_session);
    assert(d3 =~= unix_session(workspace, encode_utf8(session_id)));
}

/// What stands behind a session's directory in the path of an attachment.
#[verifier::opaque]
spec fn unix_tail(filename: Seq<char>) -> Seq<u8> {
    encode_utf8("attachments"@).push(0x2f) + encode_utf8(filename)
}

proof fn reference_text_on_unix(workspace: Seq<u8>, session_id: Seq<char>, filename: Seq<char>)
    ensures
        joined(workspace, encode_utf8(relative_path(session_id, filename))) == unix_session(
            workspace,
            encode_utf8(session_id),
        ).push(0x2f) + unix_tail(filename),
{
    fixed_parts();
    reference_bytes(session_id, filename);
    let bytes = encode_utf8(relative_path(session_id, filename));
    assert(bytes[0] == 0x2e);
    reveal(unix_session);
    reveal(unix_tail);
    assert(joined(workspace, bytes) =~= unix_session(workspace, encode_utf8(session_id)).push(
        0x2f,
    ) + unix_tail(filename));
}

proof fn file_text_on_unix(
    platform: Platform,
    workspace: Seq<u8>,
    session_id: Seq<char>,
    filename: Seq<char>,
)
    requires
        platform.unix(),
        !absolute(encode_utf8(session_id)),
        !absolute(encode_utf8(filename)),
    ensures
        ({
            let session = unix_session(workspace, encode_utf8(session_id));
            joined(attachments_dir(platform, workspace, session_id), encode_utf8(filename))
                == if session.last() == 0x2f {
                session + unix_tail(filename)
            } else {
                session.push(0x2f) + unix_tail(filename)
            }
        }),
{
    fixed_parts();
    dir_on_unix(platform, workspace, session_id);
    let session = unix_session(workspace, encode_utf8(session_id));
    let dir = attachments_dir(platform, workspace, session_id);
    let attachments = encode_utf8("attachments"@);
    let name = encode_utf8(filename);
    reveal(unix_tail);
    assert(dir.last() == 0x73);
    assert(joined(dir, name) == dir.push(0x2f) + name);
    if session.last() == 0x2f {
        assert(dir.push(0x2f) + name =~= session + (attachments.push(0x2f) + name));
    } else {
        assert(dir.push(0x2f) + name =~= session.push(0x2f) + (attachments.push(0x2f) + name));
    }
}

/// What begins a path begins every path that has it first.
proof fn comes_first(workspace: Seq<u8>, session: Seq<u8>, tail: Seq<u8>)
    requires
        workspace.is_prefix_of(session),
    ensures
        workspace.is_prefix_of(session + tail),
{
    assert((session + tail).subrange(0, workspace.len() as int) =~= session.subrange(
        0,
        workspace.len() as int,
    ));
}

/// One separator more between two parts of a path makes no difference.
proof fn one_separator_more(session: Seq<u8>, tail: Seq<u8>)
    requires
        session.len() > 0,
        session.last() == 0x2f,
    ensures
        squeezed(session.push(0x2f) + tail) == squeezed(session + tail),
{
    assert(session.push(0x2f).drop_last() =~= session);
    squeezed_alike(session.push(0x2f), session, tail);
}

/// The directory of a session is below the workspace.
proof fn unix_session_below(workspace: Seq<u8>, id: Seq<u8>)
    ensures
        workspace.is_prefix_of(unix_session(workspace, id)),
        unix_session(workspace, id).len() > 0,
        id.len() > 0 ==> unix_session(workspace, id).last() == id.last(),
{
    reveal(unix_session);
    assert(unix_session(workspace, id).subrange(0, workspace.len() as int) =~= workspace);
}

proof fn reference_on_unix(
    platform: Platform,
    workspace: Seq<u8>,
    session_id: Seq<char>,
    filename: Seq<char>,
)
    requires
        platform.unix(),
        !absolute(encode_utf8(session_id)),
        !absolute(encode_utf8(filename)),
    ensures
        ({
            let reference = joined(workspace, encode_utf8(relative_path(session_id, filename)));
            let file = joined(
                attachments_dir(platform, workspace, session_id),
                encode_utf8(filename),
            );
            &&& squeezed(reference) == squeezed(file)
            &&& workspace.is_prefix_of(reference)
            &&& workspace.is_prefix_of(file)
            &&& names_parts(session_id) ==> reference == file
        }),
{
    let id = encode_utf8(session_id);
    let session = unix_session(workspace, id);
    let tail = unix_tail(filename);
    reference_text_on_unix(workspace, session_id, filename);
    file_text_on_unix(platform, workspace, session_id, filename);
    unix_session_below(workspace, id);
    comes_first(workspace, session, seq![0x2fu8]);
    assert(session + seq![0x2fu8] =~= session.push(0x2f));
    comes_first(workspace, session.push(0x2f), tail);
    comes_first(workspace, session, tail);
    if session.last() == 0x2f {
        one_separator_more(session, tail);
    }
    if names_parts(session_id) {
        encoding_is_some(session_id);
    }
}

/// The directory of a session on Windows, as it is joined.
#[verifier::opaque]
spec fn windows_session(workspace: Seq<u8>, id: Seq<u8>) -> Seq<u8> {
    let base = if workspace.len() == 0 || windows_separator(workspace.last()) {
        workspace
    } else {
        workspace.push(0x5c)
    };
    base + encode_utf8(".nca"@).push(0x5c) + encode_utf8("sessions"@).push(0x5c) + id
}

/// The directory of a session is below the workspace, and others are put behind
/// it as they are.
proof fn windows_session_below(workspace: Seq<u8>, id: Seq<u8>)
    requires
        windows_extends(workspace),
    ensures
        workspace.is_prefix_of(windows_session(workspace, id)),
        windows_session(workspace, id).len() > 3,
        windows_extends(windows_session(workspace, id)),
{
    reveal(windows_session);
    fixed_parts();
    let session = windows_session(workspace, id);
    assert(session.subrange(0, workspace.len() as int) =~= workspace);
    if workspace.len() > 2 {
        assert(session[2] == workspace[2]);
    }
}

proof fn dir_on_windows(platform: Platform, workspace: Seq<u8>, session_id: Seq<char>)
    requires
        !platform.unix(),
        windows_extends(workspace),
        windows_relative(encode_utf8(session_id)),
    ensures
        attachments_dir(platform, workspace, session_id) == windows_extended(
            windows_session(workspace, encode_utf8(session_id)),
            encode_utf8("attachments"@),
        ),
{
    fixed_parts();
    let nca = encode_utf8(".nca"@);
    let sessions = encode_utf8("sessions"@);
    let id = encode_utf8(session_id);
    let base = if workspace.len() == 0 || windows_separator(workspace.last()) {
        workspace
    } else {
        workspace.push(0x5c)
    };
    let d1 = platform.joined(workspace, nca);
    assert(d1 =~= base + nca);
    if workspace.len() > 2 {
        assert(d1[2] == workspace[2]);
    }
    assert(windows_extends(d1));
    let d2 = platform.joined(d1, sessions);
    assert(d2 =~= base + nca.push(0x5c) + sessions);
    assert(d2[2] == d1[2]);
    let d3 = platform.joined(d2, id);
    reveal(windows_session);
    assert(d3 =~= windows_session(workspace, id));
    windows_session_below(workspace, id);
}

/// A path in slashes is its parts in slashes.
proof fn slashed_parts(a: Seq<u8>, b: Seq<u8>)
    ensures
        slashed(a + b) == slashed(a) + slashed(b),
{
    assert(slashed(a + b) =~= slashed(a) + slashed(b));
}

/// What stands behind a session's directory, in slashes.
#[verifier::opaque]
spec fn windows_tail(filename: Seq<char>) -> Seq<u8> {
    slashed(encode_utf8("attachments"@).push(0x5c) + encode_utf8(filename))
}

/// A path in slashes, made of parts that are the same in slashes.
proof fn slashed_alike(
    base: Seq<u8>,
    above: Seq<u8>,
    other_above: Seq<u8>,
    id: Seq<u8>,
    tail: Seq<u8>,
    other_tail: Seq<u8>,
)
    requires
        slashed(above) == slashed(other_above),
        slashed(tail) == slashed(other_tail),
    ensures
        slashed(base + (above + id + seq![0x2fu8] + tail)) == slashed(base + other_above + id).push(
            0x2f,
        ) + slashed(other_tail),
{
    slashed_parts(base, above + id + seq![0x2fu8] + tail);
    slashed_parts(above + id + seq![0x2fu8], tail);
    slashed_parts(above + id, seq![0x2fu8]);
    slashed_parts(above, id);
    slashed_parts(base + other_above, id);
    slashed_parts(base, other_above);
    assert(slashed(seq![0x2fu8]) =~= seq![0x2fu8]);
    let b = slashed(base);
    let x = slashed(above);
    let i = slashed(id);
    let t = slashed(tail);
    assert(b + (x + i + seq![0x2fu8] + t) =~= (b + x + i).push(0x2f) + t);
}

/// The fixed parts are the same in slashes.
proof fn fixed_parts_alike(filename: Seq<char>)
    ensures
        slashed(encode_utf8(".nca"@).push(0x2f) + encode_utf8("sessions"@).push(0x2f)) == slashed(
            encode_utf8(".nca"@).push(0x5c) + encode_utf8("sessions"@).push(0x5c),
        ),
        slashed(encode_utf8("attachments"@).push(0x2f) + encode_utf8(filename)) == slashed(
            encode_utf8("attachments"@).push(0x5c) + encode_utf8(filename),
        ),
{
    let nca = encode_utf8(".nca"@);
    let sessions = encode_utf8("sessions"@);
    let attachments = encode_utf8("attachments"@);
    let name = encode_utf8(filename);
    assert(slashed(nca.push(0x2f)) =~= slashed(nca.push(0x5c)));
    assert(slashed(sessions.push(0x2f)) =~= slashed(sessions.push(0x5c)));
    assert(slashed(attachments.push(0x2f)) =~= slashed(attachments.push(0x5c)));
    slashed_parts(nca.push(0x2f), sessions.push(0x2f));
    slashed_parts(nca.push(0x5c), sessions.push(0x5c));
    slashed_parts(attachments.push(0x2f), name);
    slashed_parts(attachments.push(0x5c), name);
}

proof fn reference_text_on_windows(
    platform: Platform,
    workspace: Seq<u8>,
    session_id: Seq<char>,
    filename: Seq<char>,
)
    requires
        !platform.unix(),
        windows_extends(workspace),
    ensures
        ({
            let reference = platform.joined(
                workspace,
                encode_utf8(relative_path(session_id, filename)),
            );
            &&& workspace.is_prefix_of(reference)
            &&& slashed(reference) == slashed(
                windows_session(workspace, encode_utf8(session_id)),
            ).push(0x2f) + windows_tail(filename)
        }),
{
    let bytes = encode_utf8(relative_path(session_id, filename));
    let id = encode_utf8(session_id);
    let above = encode_utf8(".nca"@).push(0x2f) + encode_utf8("sessions"@).push(0x2f);
    let other_above = encode_utf8(".nca"@).push(0x5c) + encode_utf8("sessions"@).push(0x5c);
    let tail = encode_utf8("attachments"@).push(0x2f) + encode_utf8(filename);
    let other_tail = encode_utf8("attachments"@).push(0x5c) + encode_utf8(filename);
    let base = if workspace.len() == 0 || windows_separator(workspace.last()) {
        workspace
    } else {
        workspace.push(0x5c)
    };
    let reference = platform.joined(workspace, bytes);
    assert(bytes =~= above + id + seq![0x2fu8] + tail && bytes[0] == 0x2e && bytes[1] == 0x6e) by {
        fixed_parts();
        reference_bytes(session_id, filename);
    }
    assert(reference == base + bytes);
    assert(workspace.is_prefix_of(reference)) by {
        assert(reference.subrange(0, workspace.len() as int) =~= workspace);
    }
    fixed_parts_alike(filename);
    slashed_alike(base, above, other_above, id, tail, other_tail);
    assert(windows_session(workspace, id) == base + other_above + id) by {
        reveal(windows_session);
        assert(base + encode_utf8(".nca"@).push(0x5c) + encode_utf8("sessions"@).push(0x5c) =~= base
            + other_above);
    }
    assert(windows_tail(filename) == slashed(other_tail)) by {
        reveal(windows_tail);
    }
}

proof fn file_text_on_windows(
    platform: Platform,
    workspace: Seq<u8>,
    session_id: Seq<char>,
    filename: Seq<char>,
)
    requires
        !platform.unix(),
        windows_extends(workspace),
        windows_relative(encode_utf8(session_id)),
        windows_relative(encode_utf8(filename)),
    ensures
        ({
            let file = platform.joined(
                attachments_dir(platform, workspace, session_id),
                encode_utf8(filename),
            );
            let whole = slashed(windows_session(workspace, encode_utf8(session_id)));
            &&& workspace.is_prefix_of(file)
            &&& slashed(file) == if whole.last() == 0x2f {
                whole + windows_tail(filename)
            } else {
                whole.push(0x2f) + windows_tail(filename)
            }
        }),
{
    fixed_parts();
    dir_on_windows(platform, workspace, session_id);
    windows_session_below(workspace, encode_utf8(session_id));
    reveal(windows_tail);
    let session = windows_session(workspace, encode_utf8(session_id));
    let attachments = encode_utf8("attachments"@);
    let name = encode_utf8(filename);
    let dir = attachments_dir(platform, workspace, session_id);
    let end = attachments.push(0x5c) + name;
    assert(dir[2] == session[2]);
    assert(dir.last() == 0x73);
    let file = platform.joined(dir, name);
    assert(file == dir.push(0x5c) + name);
    assert(slashed(session).last() == slash_for(session.last()));
    if windows_separator(session.last()) {
        assert(file =~= session + end);
        slashed_parts(session, end);
        comes_first(workspace, session, end);
    } else {
        assert(file =~= session + seq![0x5cu8] + end);
        slashed_parts(session + seq![0x5cu8], end);
        slashed_parts(session, seq![0x5cu8]);
        assert(slashed(seq![0x5cu8]) =~= seq![0x2fu8]);
        assert(slashed(session) + seq![0x2fu8] =~= slashed(session).push(0x2f));
        comes_first(workspace, session, seq![0x5cu8]);
        comes_first(workspace, session + seq![0x5cu8], end);
    }
}

proof fn reference_on_windows(
    platform: Platform,
    workspace: Seq<u8>,
    session_id: Seq<char>,
    filename: Seq<char>,
)
    requires
        !platform.unix(),
        windows_extends(workspace),
        windows_relative(encode_utf8(session_id)),
        windows_relative(encode_utf8(filename)),
    ensures
        ({
            let reference = platform.joined(
                workspace,
                encode_utf8(relative_path(session_id, filename)),
            );
            let file = platform.joined(
                attachments_dir(platform, workspace, session_id),
                encode_utf8(filename),
            );
            &&& squeezed(slashed(reference)) == squeezed(slashed(file))
            &&& workspace.is_prefix_of(reference)
            &&& workspace.is_prefix_of(file)
        }),
{
    let whole = slashed(windows_session(workspace, encode_utf8(session_id)));
    reference_text_on_windows(platform, workspace, session_id, filename);
    file_text_on_windows(platform, workspace, session_id, filename);
    windows_session_below(workspace, encode_utf8(session_id));
    if whole.last() == 0x2f {
        one_separator_more(whole, windows_tail(filename));
    }
}

/// The encoding of some text is some bytes.
proof fn encoding_is_some(text: Seq<char>)
    requires
        text.len() > 0,
    ensures
        encode_utf8(text).len() > 0,
{
    if encode_utf8(text).len() == 0 {
        encode_utf8_decode_utf8(text);
        encode_utf8_decode_utf8(Seq::empty());
        assert(encode_utf8(text) =~= encode_utf8(Seq::empty()));
    }
}

/// The name of a staged file is seen from another path.
proof fn timed_name_is_relative(
    platform: Platform,
    prefix: Seq<char>,
    ext: Seq<char>,
    nanos: Option<u128>,
)
    requires
        prefix.len() > 1,
        is_ascii_chars(prefix),
        prefix[0] != '/' && prefix[0] != '\\',
        prefix[1] != ':',
    ensures
        platform.relative(encode_utf8(timed_name(prefix, ext, nanos))),
{
    let name = timed_name(prefix, ext, nanos);
    let rest = name.skip(prefix.len() as int);
    assert(name =~= prefix + rest);
    encoding_of_parts(prefix, rest);
    is_ascii_chars_encode_utf8(prefix);
    assert(encode_utf8(name)[0] == encode_utf8(prefix)[0]);
    assert(encode_utf8(name)[1] == encode_utf8(prefix)[1]);
    assert(prefix[0] as u8 == encode_utf8(prefix)[0]);
    assert(prefix[1] as u8 == encode_utf8(prefix)[1]);
}

/// What refers to an imported file names it, for every session name that is
/// seen from another path.
pub proof fn imported_file_is_found(
    platform: Platform,
    workspace: Seq<u8>,
    session_id: Seq<char>,
    src: Seq<u8>,
    nanos: Option<u128>,
)
    requires
        platform.extends(workspace),
        platform.relative(encode_utf8(session_id)),
    ensures
        ({
            let plan = import_of(platform, workspace, session_id, src, nanos);
            let reference = platform.joined(workspace, encode_utf8(plan.attachment.path));
            &&& platform.same_path(reference, plan.dest)
            &&& platform.unix() && names_parts(session_id) ==> reference == plan.dest
        }),
{
    reveal_strlit("import");
    let from = import_of(platform, workspace, session_id, src, nanos).src;
    let ext = import_extension(platform, from);
    timed_name_is_relative(platform, "import"@, ext, nanos);
    reference_leads_to_file(platform, workspace, session_id, timed_name("import"@, ext, nanos));
}

/// What refers to a pasted image names it, for every session name that is seen
/// from another path.
pub proof fn pasted_image_is_found(
    platform: Platform,
    workspace: Seq<u8>,
    session_id: Seq<char>,
    nanos: Option<u128>,
)
    requires
        platform.extends(workspace),
        platform.relative(encode_utf8(session_id)),
    ensures
        ({
            let plan = paste_of(platform, workspace, session_id, nanos);
            let reference = platform.joined(workspace, encode_utf8(plan.attachment.path));
            &&& platform.same_path(reference, plan.dest)
            &&& platform.unix() && names_parts(session_id) ==> reference == plan.dest
        }),
{
    reveal_strlit("paste");
    timed_name_is_relative(platform, "paste"@, "png"@, nanos);
    reference_leads_to_file(
        platform,
        workspace,
        session_id,
        timed_name("paste"@, "png"@, nanos),
    );
}

/// An import that starts with its first step has an attachment just where
/// every step worked.
pub proof fn import_needs_every_step(
    plan: ImageImportView,
    file: Result<(), Seq<char>>,
    dir: Result<(), Seq<char>>,
    copy: Result<(), Seq<char>>,
)
    ensures
        ({
            let s1 = import_next(plan, ImportStepView::CheckFile, file);
            let s2 = import_next(plan, s1, dir);
            let s3 = import_next(plan, s2, copy);
            &&& s3 is Done
            &&& s3 == ImportStepView::Done(Ok(plan.attachment)) <==> file is Ok && dir is Ok
                && copy is Ok
        }),
{
}

/// A paste that starts with its first step has an attachment just where every
/// step worked.
pub proof fn paste_needs_every_step(
    plan: ClipboardPasteView,
    open: Result<(), Seq<char>>,
    read: Result<(), Seq<char>>,
    make: Result<(), Seq<char>>,
    dir: Result<(), Seq<char>>,
    save: Result<(), Seq<char>>,
)
    ensures
        ({
            let s1 = paste_next(plan, PasteStepView::OpenClipboard, open);
            let s2 = paste_next(plan, s1, read);
            let s3 = paste_next(plan, s2, make);
            let s4 = paste_next(plan, s3, dir);
            let s5 = paste_next(plan, s4, save);
            &&& s5 is Done
            &&& s5 == PasteStepView::Done(Ok(plan.attachment)) <==> open is Ok && read is Ok
                && make is Ok && dir is Ok && save is Ok
        }),
{
}

/// The case of an extension does not matter.
pub proof fn media_type_ignores_case(a: Seq<char>, b: Seq<char>)
    requires
        same_ignoring_case(a, b),
    ensures
        media_type(a) == media_type(b),
{
}

/// A staged file is named by its prefix, a dash, the nanoseconds in decimal, a
/// dot and its extension; without a time, by zero nanoseconds.
pub proof fn names_tell_the_time(prefix: Seq<char>, ext: Seq<char>, nanos: Option<u128>) -> (digits:
    Seq<char>)
    ensures
        timed_name(prefix, ext, nanos) == prefix + seq!['-'] + digits + seq!['.'] + ext,
        nanos matches Some(n) ==> number_read(digits) == n,
        nanos is None ==> number_read(digits) == 0,
        forall|i: int| 0 <= i < digits.len() ==> '0' <= #[trigger] digits[i] <= '9',
{
    reveal_strlit("-");
    reveal_strlit(".");
    assert("-"@ =~= seq!['-']);
    assert("."@ =~= seq!['.']);
    let n: nat = match nanos {
        Some(n) => n as nat,
        None => 0,
    };
    decimal_reads_back(n);
    decimal(n)
}

/// Files with different times have different names.
pub proof fn times_make_names_differ(prefix: Seq<char>, ext: Seq<char>, a: u128, b: u128)
    requires
        a != b,
    ensures
        timed_name(prefix, ext, Some(a)) != timed_name(prefix, ext, Some(b)),
{
    let x = names_tell_the_time(prefix, ext, Some(a));
    let y = names_tell_the_time(prefix, ext, Some(b));
    let m = timed_name(prefix, ext, Some(a));
    let n = timed_name(prefix, ext, Some(b));
    if m == n {
        let from = prefix.len() + 1;
        assert(m.len() == prefix.len() + 2 + x.len() + ext.len());
        assert(n.len() == prefix.len() + 2 + y.len() + ext.len());
        assert(m.subrange(from as int, (from + x.len()) as int) =~= x);
        assert(n.subrange(from as int, (from + y.len()) as int) =~= y);
    }
}

/// Four kinds of images have their media types, whatever the case of their
/// extension; everything else is plain bytes.
pub proof fn media_types_of_images(ext: Seq<char>)
    ensures
        ({
            let e = lower_ascii(ext);
            &&& e == "png"@ ==> media_type(ext) == "image/png"@
            &&& e == "jpg"@ ==> media_type(ext) == "image/jpeg"@
            &&& e == "jpeg"@ ==> media_type(ext) == "image/jpeg"@
            &&& e == "webp"@ ==> media_type(ext) == "image/webp"@
            &&& e == "gif"@ ==> media_type(ext) == "image/gif"@
            &&& e != "png"@ && e != "jpg"@ && e != "jpeg"@ && e != "webp"@ && e != "gif"@
                ==> media_type(ext) == "application/octet-stream"@
        }),
{
    reveal_strlit("png");
    reveal_strlit("jpg");
    reveal_strlit("jpeg");
    reveal_strlit("webp");
    reveal_strlit("gif");
    assert("png"@[0] == 'p' && "jpg"@[0] == 'j' && "jpeg"@[0] == 'j' && "webp"@[0] == 'w'
        && "gif"@[0] == 'g');
}

/// The attachments of a session are in the directory of that name, below its
/// own, below the workspace's.
pub proof fn attachments_have_their_directory(
    platform: Platform,
    workspace: Seq<u8>,
    session_id: Seq<char>,
)
    ensures
        ({
            let nca = platform.joined(workspace, encode_utf8(".nca"@));
            let sessions = platform.joined(nca, encode_utf8("sessions"@));
            let session = platform.joined(sessions, encode_utf8(session_id));
            attachments_dir(platform, workspace, session_id) == platform.joined(
                session,
                encode_utf8("attachments"@),
            )
        }),
{
}

/// An import takes an absolute source as it is, any other from the workspace,
/// and stages it in the session's directory under the source's extension, which
/// also tells its media type; a source without one is staged as `bin`.
pub proof fn import_keeps_the_extension(
    platform: Platform,
    workspace: Seq<u8>,
    session_id: Seq<char>,
    src: Seq<u8>,
    nanos: Option<u128>,
) -> (digits: Seq<char>)
    ensures
        ({
            let plan = import_of(platform, workspace, session_id, src, nanos);
            let ext = match platform.extension(plan.src) {
                Some(ext) => ext,
                None => "bin"@,
            };
            let name = "import"@ + seq!['-'] + digits + seq!['.'] + ext;
            &&& platform.absolute(src) ==> plan.src == src
            &&& !platform.absolute(src) ==> plan.src == platform.joined(workspace, src)
            &&& plan.shown == platform.shown(plan.src)
            &&& plan.dir == attachments_dir(platform, workspace, session_id)
            &&& plan.dest == platform.joined(plan.dir, encode_utf8(name))
            &&& plan.attachment.media_type == media_type(ext)
            &&& plan.attachment.path == ".nca/sessions/"@ + session_id + "/attachments/"@ + name
            &&& nanos matches Some(n) ==> number_read(digits) == n
        }),
{
    let plan = import_of(platform, workspace, session_id, src, nanos);
    names_tell_the_time("import"@, import_extension(platform, plan.src), nanos)
}

/// A paste stages a PNG in the session's directory.
pub proof fn paste_stages_a_png(
    platform: Platform,
    workspace: Seq<u8>,
    session_id: Seq<char>,
    nanos: Option<u128>,
) -> (digits: Seq<char>)
    ensures
        ({
            let plan = paste_of(platform, workspace, session_id, nanos);
            let name = "paste"@ + seq!['-'] + digits + seq!['.'] + "png"@;
            &&& plan.dir == attachments_dir(platform, workspace, session_id)
            &&& plan.dest == platform.joined(plan.dir, encode_utf8(name))
            &&& plan.attachment.media_type == "image/png"@
            &&& plan.attachment.path == ".nca/sessions/"@ + session_id + "/attachments/"@ + name
            &&& nanos matches Some(n) ==> number_read(digits) == n
        }),
{
    names_tell_the_time("paste"@, "png"@, nanos)
}

/// An import that fails says at which step, and what the step said: for a source
/// that is no file, the source.
pub proof fn failed_import_says_why(plan: ImageImportView, why: Seq<char>)
    ensures
        import_next(plan, ImportStepView::CheckFile, Err(why)) == ImportStepView::Done(
            Err("not a file: "@ + plan.shown),
        ),
        import_next(plan, ImportStepView::CreateDir, Err(why)) == ImportStepView::Done(
            Err("create attachments dir: "@ + why),
        ),
        import_next(plan, ImportStepView::Copy, Err(why)) == ImportStepView::Done(
            Err("copy image: "@ + why),
        ),
{
}

/// A paste that fails says at which step, and what the step said.
pub proof fn failed_paste_says_why(plan: ClipboardPasteView, why: Seq<char>)
    ensures
        paste_next(plan, PasteStepView::OpenClipboard, Err(why)) == PasteStepView::Done(
            Err("clipboard: "@ + why),
        ),
        paste_next(plan, PasteStepView::ReadImage, Err(why)) == PasteStepView::Done(
            Err("clipboard has no image (try /image <path>): "@ + why),
        ),
        paste_next(plan, PasteStepView::MakeImage, Err(why)) == PasteStepView::Done(Err(why)),
        paste_next(plan, PasteStepView::CreateDir, Err(why)) == PasteStepView::Done(
            Err("create attachments dir: "@ + why),
        ),
        paste_next(plan, PasteStepView::Save, Err(why)) == PasteStepView::Done(
            Err("save png: "@ + why),
        ),
{
}

/// What has ended stays as it ended.
pub proof fn ended_staging_stays(
    import: ImageImportView,
    paste: ClipboardPasteView,
    result: Result<ImageAttachmentView, Seq<char>>,
    reply: Result<(), Seq<char>>,
)
    ensures
        import_next(import, ImportStepView::Done(result), reply) == ImportStepView::Done(result),
        paste_next(paste, PasteStepView::Done(result), reply) == PasteStepView::Done(result),
{
}

/// A size within thirty-two bits counts as it is; of a larger one only what is
/// over whole multiples of that counts.
pub proof fn sizes_count_in_thirty_two_bits(size: usize)
    ensures
        size < 4294967296 ==> pixels(size) == size,
        0 <= pixels(size) < 4294967296,
        (size - pixels(size)) % 4294967296 == 0,
{
}

/// An image takes four samples for each of its pixels.
pub proof fn four_samples_for_a_pixel(width: usize, height: usize)
    requires
        width < 4294967296,
        height < 4294967296,
    ensures
        sample_count(width, height) == 4 * (width * height),
{
    sizes_count_in_thirty_two_bits(width);
    sizes_count_in_thirty_two_bits(height);
}

/// An image of the clipboard is refused just where its samples cannot be
/// counted, where there are fewer, or where a row of it cannot be counted; more
/// samples than it takes are no reason.
pub proof fn clipboard_needs_its_samples(width: usize, height: usize, count: nat)
    ensures
        ({
            let needed = sample_count(width, height);
            let refusal = clipboard_refusal(width, height, count);
            &&& needed > usize::MAX ==> refusal == Some("clipboard image dimensions overflow"@)
            &&& needed <= usize::MAX && count < needed ==> refusal == Some(
                "clipboard image buffer too small"@,
            )
            &&& needed <= usize::MAX && count >= needed && 4 * pixels(width) > usize::MAX
                ==> refusal == Some("invalid clipboard image buffer"@)
            &&& needed <= usize::MAX && count >= needed && 4 * pixels(width) <= usize::MAX
                ==> refusal is None
        }),
{
}

/// Attachments and the ends of staging are seen with all that they hold.
pub proof fn attachments_are_seen_whole(attachment: ImageAttachment, why: String)
    ensures
        attachment@.media_type == attachment.media_type@,
        attachment@.path == attachment.path@,
        ImportStep::Done(Ok(attachment))@ == ImportStepView::Done(Ok(attachment@)),
        ImportStep::Done(Err(why))@ == ImportStepView::Done(Err(why@)),
        PasteStep::Done(Ok(attachment))@ == PasteStepView::Done(Ok(attachment@)),
        PasteStep::Done(Err(why))@ == PasteStepView::Done(Err(why@)),
{
}

/// Plans are seen with all that they hold.
pub proof fn plans_are_seen_whole(import: ImageImport, paste: ClipboardPaste)
    ensures
        import@.src == path_bytes(import.src),
        import@.shown == import.shown@,
        import@.dir == path_bytes(import.dir),
        import@.dest == path_bytes(import.dest),
        import@.attachment == import.attachment@,
        paste@.dir == path_bytes(paste.dir),
        paste@.dest == path_bytes(paste.dest),
        paste@.attachment == paste.attachment@,
{
}

} // verus!
