use std::path::{Path, PathBuf};

use nca::image_attach::{
    clipboard_image, clipboard_unavailable, import_image_file, media_type_for_extension,
    nanos_name, paste_clipboard_image, plan_import, plan_paste, relative_attachment_path,
    session_attachments_dir, ClipboardPaste, ImageImport, ImportStep, PasteStep,
};
use nca::path::Platform;

fn import(workspace: &str, session_id: &str, src: &str, nanos: Option<u128>) -> ImageImport {
    plan_import(
        Platform::current(),
        &PathBuf::from(workspace),
        session_id,
        &PathBuf::from(src),
        nanos,
    )
}

fn paste(workspace: &str, session_id: &str, nanos: Option<u128>) -> ClipboardPaste {
    plan_paste(Platform::current(), &PathBuf::from(workspace), session_id, nanos)
}

fn dir_of(workspace: &str, session_id: &str) -> PathBuf {
    session_attachments_dir(Platform::current(), &PathBuf::from(workspace), session_id)
}

fn import_error(step: ImportStep) -> String {
    let plan = import("/w", "s", "a.png", Some(7));
    match import_image_file(&plan, step, Err("why".to_string())) {
        ImportStep::Done(Err(error)) => error,
        other => panic!("{other:?}"),
    }
}

fn paste_error(step: PasteStep) -> String {
    let plan = paste("/w", "s", Some(7));
    match paste_clipboard_image(&plan, step, Err("why".to_string())) {
        PasteStep::Done(Err(error)) => error,
        other => panic!("{other:?}"),
    }
}

#[test]
fn names_hold_the_time() {
    assert_eq!(nanos_name("import", "png", Some(1234567890123456789)), "import-1234567890123456789.png");
    assert_eq!(nanos_name("paste", "png", None), "paste-0.png");
    assert_eq!(
        nanos_name("p", "", Some(u128::MAX)),
        "p-340282366920938463463374607431768211455."
    );
}

#[test]
fn attachments_are_under_the_session() {
    assert_eq!(dir_of("/w", "s1"), PathBuf::from("/w/.nca/sessions/s1/attachments"));
    assert_eq!(dir_of("/w/", "s1"), PathBuf::from("/w/.nca/sessions/s1/attachments"));
    assert_eq!(dir_of("", "s1"), PathBuf::from(".nca/sessions/s1/attachments"));
    assert_eq!(dir_of("/w", "/s1"), PathBuf::from("/s1/attachments"));
    assert_eq!(relative_attachment_path("s1", "f.png"), ".nca/sessions/s1/attachments/f.png");
}

#[test]
fn media_types_ignore_case() {
    assert_eq!(media_type_for_extension("png"), "image/png");
    assert_eq!(media_type_for_extension("PnG"), "image/png");
    assert_eq!(media_type_for_extension("JPG"), "image/jpeg");
    assert_eq!(media_type_for_extension("jpeg"), "image/jpeg");
    assert_eq!(media_type_for_extension("webp"), "image/webp");
    assert_eq!(media_type_for_extension("gif"), "image/gif");
    assert_eq!(media_type_for_extension("bmp"), "application/octet-stream");
    assert_eq!(media_type_for_extension(""), "application/octet-stream");
}

#[test]
fn an_import_copies_a_file_of_the_workspace() {
    let plan = import("/w", "s1", "shots/One.JPG", Some(42));
    assert_eq!(plan.src, PathBuf::from("/w/shots/One.JPG"));
    assert_eq!(plan.dir, PathBuf::from("/w/.nca/sessions/s1/attachments"));
    assert_eq!(plan.dest, PathBuf::from("/w/.nca/sessions/s1/attachments/import-42.JPG"));
    let step = import_image_file(&plan, ImportStep::CheckFile, Ok(()));
    assert!(matches!(step, ImportStep::CreateDir));
    let step = import_image_file(&plan, step, Ok(()));
    assert!(matches!(step, ImportStep::Copy));
    match import_image_file(&plan, step, Ok(())) {
        ImportStep::Done(Ok(attachment)) => {
            assert_eq!(attachment.media_type, "image/jpeg");
            assert_eq!(attachment.path, ".nca/sessions/s1/attachments/import-42.JPG");
            assert_eq!(Path::new("/w").join(&attachment.path), plan.dest);
        }
        other => panic!("{other:?}"),
    }
}

#[test]
fn an_import_takes_absolute_paths_as_they_are() {
    let plan = import("/w", "s1", "/home/me/picture", None);
    assert_eq!(plan.src, PathBuf::from("/home/me/picture"));
    assert_eq!(plan.dest, PathBuf::from("/w/.nca/sessions/s1/attachments/import-0.bin"));
    assert_eq!(plan.attachment.media_type, "application/octet-stream");
}

#[test]
fn an_import_keeps_the_extension_of_its_source() {
    let named = |src: &str| {
        let dest = import("/w", "s", src, Some(1)).dest;
        dest.file_name().and_then(|name| name.to_str()).unwrap().to_string()
    };
    assert_eq!(named("a/x.tar.gz"), "import-1.gz");
    assert_eq!(named("a.b/c"), "import-1.bin");
    assert_eq!(named(".hidden"), "import-1.bin");
    assert_eq!(named("a/.hidden.png"), "import-1.png");
    assert_eq!(named("x."), "import-1.");
    assert_eq!(named("a/.."), "import-1.bin");
    assert_eq!(named("a/x.png/"), "import-1.png");
    assert_eq!(named("a/x.png/."), "import-1.png");
    assert_eq!(named("\u{e9}.\u{e9}"), "import-1.\u{e9}");
}

#[test]
fn references_lead_to_files_for_every_relative_session() {
    for session in ["s", "", "s/", "a/b", "a//", ".", ".."] {
        let plan = import("/w", session, "x.png", Some(1));
        assert_eq!(Path::new("/w").join(&plan.attachment.path), plan.dest);
        let plan = paste("/w/", session, Some(1));
        assert_eq!(Path::new("/w/").join(&plan.attachment.path), plan.dest);
    }
}

#[test]
fn an_import_fails_with_its_steps() {
    assert_eq!(import_error(ImportStep::CheckFile), "not a file: /w/a.png");
    assert_eq!(import_error(ImportStep::CreateDir), "create attachments dir: why");
    assert_eq!(import_error(ImportStep::Copy), "copy image: why");
    assert_eq!(import_error(ImportStep::Done(Err("first".to_string()))), "first");
}

#[test]
fn a_clipboard_image_takes_the_samples_of_its_size() {
    let bytes: Vec<u8> = (0..20).collect();
    let image = clipboard_image(2, 2, &bytes).unwrap();
    assert_eq!((image.width(), image.height()), (2, 2));
    assert_eq!(image.to_rgba8().as_raw(), &bytes[..16]);
    assert!(image.as_rgba8().is_some());
}

#[test]
fn an_empty_clipboard_image_has_no_samples() {
    let image = clipboard_image(0, 5, &[1, 2, 3]).unwrap();
    assert_eq!((image.width(), image.height()), (0, 5));
    assert!(image.to_rgba8().as_raw().is_empty());
}

#[test]
fn a_clipboard_image_needs_its_samples() {
    assert_eq!(
        clipboard_image(2, 2, &[0; 15]).unwrap_err(),
        "clipboard image buffer too small"
    );
    assert_eq!(
        clipboard_image(0xffff_ffff, 0xffff_ffff, &[]).unwrap_err(),
        "clipboard image dimensions overflow"
    );
}

#[test]
fn a_paste_saves_a_png() {
    let plan = paste("/w", "s1", Some(5));
    assert_eq!(plan.dir, PathBuf::from("/w/.nca/sessions/s1/attachments"));
    assert_eq!(plan.dest, PathBuf::from("/w/.nca/sessions/s1/attachments/paste-5.png"));
    let step = paste_clipboard_image(&plan, PasteStep::OpenClipboard, Ok(()));
    assert!(matches!(step, PasteStep::ReadImage));
    let step = paste_clipboard_image(&plan, step, Ok(()));
    assert!(matches!(step, PasteStep::MakeImage));
    let step = paste_clipboard_image(&plan, step, Ok(()));
    assert!(matches!(step, PasteStep::CreateDir));
    let step = paste_clipboard_image(&plan, step, Ok(()));
    assert!(matches!(step, PasteStep::Save));
    match paste_clipboard_image(&plan, step, Ok(())) {
        PasteStep::Done(Ok(attachment)) => {
            assert_eq!(attachment.media_type, "image/png");
            assert_eq!(Path::new("/w").join(&attachment.path), plan.dest);
        }
        other => panic!("{other:?}"),
    }
}

#[test]
fn a_paste_fails_with_its_steps() {
    assert_eq!(paste_error(PasteStep::OpenClipboard), "clipboard: why");
    assert_eq!(
        paste_error(PasteStep::ReadImage),
        "clipboard has no image (try /image <path>): why"
    );
    assert_eq!(paste_error(PasteStep::MakeImage), "why");
    assert_eq!(paste_error(PasteStep::CreateDir), "create attachments dir: why");
    assert_eq!(paste_error(PasteStep::Save), "save png: why");
}

#[test]
fn there_may_be_no_clipboard() {
    assert_eq!(
        clipboard_unavailable().unwrap_err(),
        "clipboard not available in this build (compiled without clipboard feature)"
    );
}
