use idol_catalog::add_group::{add_group_api, upload_cors};
use idol_catalog::add_images::{add_image_api, upload_cors2};
use idol_catalog::reply::Status;
use idol_catalog::upload::{
    accept_extension, classify_filename, extension, image_names, incomplete_upload,
    is_image_extension_str, to_lower_hex, UploadAction, UploadBatch, UploadEvent,
    MAX_IMAGES_PER_UPLOAD,
};
use sha3::{Digest, Keccak256};

const EMPTY_KECCAK: &str = "c5d2460186f7233c927e7db2dcc703c0e500b653ca82273b7bfad8045d85a470";

#[test]
fn extension_is_text_after_last_dot() {
    assert_eq!(extension("photo.JPG"), "JPG");
    assert_eq!(extension("a.b.png"), "png");
    assert_eq!(extension("noext"), "noext");
    assert_eq!(extension("trailing."), "");
    assert_eq!(extension(""), "");
    assert_eq!(extension(".gif"), "gif");
}

#[test]
fn classify_accepts_image_extensions_in_any_case() {
    assert_eq!(classify_filename("photo.JPG").unwrap(), "jpg");
    assert_eq!(classify_filename("x.y.WebP").unwrap(), "webp");
    assert_eq!(classify_filename("cat.jpeg").unwrap(), "jpeg");
    assert_eq!(classify_filename("cat.Png").unwrap(), "png");
    assert_eq!(classify_filename("anim.GIF").unwrap(), "gif");
    // A name without a dot is its own extension.
    assert_eq!(classify_filename("png").unwrap(), "png");
}

#[test]
fn classify_refuses_other_files() {
    for name in ["virus.exe", "photo.jpg.txt", "photo.", "photo", "a.jpgx", "a. jpg"] {
        let r = classify_filename(name).unwrap_err();
        assert_eq!(r.status, Status::Forbidden);
        assert_eq!(r.body, "non-image upload");
    }
}

#[test]
fn accept_extension_checks_lowered_text() {
    assert_eq!(accept_extension("webp".to_string()).unwrap(), "webp");
    let r = accept_extension("JPG".to_string()).unwrap_err();
    assert_eq!(r.status, Status::Forbidden);
    assert_eq!(r.body, "non-image upload");
    assert!(is_image_extension_str("gif"));
    assert!(!is_image_extension_str("tiff"));
}

#[test]
fn hex_is_lower_case_two_digits_per_byte() {
    assert_eq!(to_lower_hex(&[0x0a, 0x14, 0x1e]), "0a141e");
    assert_eq!(to_lower_hex(&[]), "");
    assert_eq!(to_lower_hex(&[0x00, 0xff, 0xab]), "00ffab");
}

#[test]
fn image_names_from_digest() {
    let (name, path) = image_names(&[0xde, 0xad], "png");
    assert_eq!(name, "dead.png");
    assert_eq!(path, "./static/image/dead.png");
}

#[test]
fn batch_admits_twenty_fields_then_stops() {
    let mut batch = UploadBatch::new();
    for _ in 0..MAX_IMAGES_PER_UPLOAD {
        assert!(batch.admit_field());
    }
    assert!(!batch.admit_field());
    assert!(!batch.admit_field());
    assert_eq!(MAX_IMAGES_PER_UPLOAD, 20);
}

#[test]
fn stored_image_is_named_by_keccak_digest() {
    let mut batch = UploadBatch::new();
    assert!(!batch.has_open_field());
    assert!(batch.admit_field());
    assert!(batch.has_open_field());
    let path = batch.store_image(b"", "png");
    assert_eq!(path, format!("./static/image/{}.png", EMPTY_KECCAK));
    assert!(!batch.has_open_field());

    assert!(batch.admit_field());
    let content = b"some image bytes";
    let path2 = batch.store_image(content, "jpg");
    let expected = format!("{:x}", Keccak256::digest(content));
    assert_eq!(path2, format!("./static/image/{}.jpg", expected));

    let names = batch.finish();
    assert_eq!(
        names,
        vec![format!("{}.png", EMPTY_KECCAK), format!("{}.jpg", expected)]
    );
}

#[test]
fn same_content_same_name() {
    let mut batch = UploadBatch::new();
    batch.admit_field();
    let a = batch.store_image(b"abc", "gif");
    batch.admit_field();
    let b = batch.store_image(b"abc", "gif");
    batch.admit_field();
    let c = batch.store_image(b"abd", "gif");
    assert_eq!(a, b);
    assert_ne!(a, c);
}

#[test]
fn incomplete_upload_is_forbidden() {
    let r = incomplete_upload();
    assert_eq!(r.status, Status::Forbidden);
    assert_eq!(r.body, "incompleted upload");
}

#[test]
fn image_upload_needs_sign_in() {
    let r = add_image_api(false).unwrap_err();
    assert_eq!(r.status, Status::Forbidden);
    assert_eq!(r.body, "Access Denied");
    let batch = add_image_api(true).unwrap();
    assert!(batch.finish().is_empty());
}

#[test]
fn preflight_answers_ok() {
    let r = upload_cors("anything");
    assert_eq!(r.status, Status::Success);
    assert_eq!(r.body, "Ok");
    let r = upload_cors2();
    assert_eq!(r.status, Status::Success);
    assert_eq!(r.body, "Ok");
}

#[test]
fn group_upload_records_trimmed_name_and_photos() {
    let mut batch = UploadBatch::new();
    batch.admit_field();
    batch.store_image(b"", "webp");
    let (pending, reply) = add_group_api("  New Group \n", batch);
    assert_eq!(pending.name, "New Group");
    assert_eq!(pending.team_photos, vec![format!("{}.webp", EMPTY_KECCAK)]);
    assert_eq!(reply.status, Status::Success);
    assert_eq!(reply.body, "Ok");
}

#[test]
fn distinct_bytes_distinct_hex() {
    assert_ne!(to_lower_hex(&[0x01, 0x10]), to_lower_hex(&[0x11, 0x00]));
    assert_ne!(to_lower_hex(&[0x0a]), to_lower_hex(&[0xa0]));
    assert_eq!(to_lower_hex(&[0x12; 32]).len(), 64);
}

fn run_request(fields: &[(&str, &[u8])]) -> Vec<String> {
    let mut batch = UploadBatch::new();
    let mut log = Vec::new();
    let mut stopped = false;
    for (name, content) in fields {
        match batch.on_event(UploadEvent::FieldOffered) {
            UploadAction::ReadFilename => {}
            UploadAction::Finish => {
                stopped = true;
                break;
            }
            a => panic!("unexpected {:?}", a),
        }
        let extension = match batch.on_event(UploadEvent::FieldNamed(name.to_string())) {
            UploadAction::ReadContent { extension } => extension,
            a => {
                log.push(format!("{:?}", a));
                return log;
            }
        };
        match batch.on_event(UploadEvent::ContentRead { content: content.to_vec(), extension }) {
            UploadAction::Write { path, content } => log.push(format!("{} {:?}", path, content)),
            a => panic!("unexpected {:?}", a),
        }
    }
    if !stopped {
        match batch.on_event(UploadEvent::StreamEnded) {
            UploadAction::Finish => {}
            a => panic!("unexpected {:?}", a),
        }
    }
    log.extend(batch.finish());
    log
}

#[test]
fn stream_end_finishes_the_upload() {
    let mut batch = UploadBatch::new();
    assert!(matches!(batch.on_event(UploadEvent::StreamEnded), UploadAction::Finish));
    assert!(batch.finish().is_empty());
}

#[test]
fn twenty_first_field_finishes_the_upload() {
    let mut batch = UploadBatch::new();
    for _ in 0..20 {
        assert!(matches!(batch.on_event(UploadEvent::FieldOffered), UploadAction::ReadFilename));
    }
    assert!(matches!(batch.on_event(UploadEvent::FieldOffered), UploadAction::Finish));
}

#[test]
fn bad_file_name_and_broken_chunk_refuse() {
    let mut batch = UploadBatch::new();
    batch.on_event(UploadEvent::FieldOffered);
    match batch.on_event(UploadEvent::FieldNamed("notes.txt".to_string())) {
        UploadAction::Refuse(r) => {
            assert_eq!(r.status, Status::Forbidden);
            assert_eq!(r.body, "non-image upload");
        }
        a => panic!("unexpected {:?}", a),
    }
    match batch.on_event(UploadEvent::FieldNamed("pic.PNG".to_string())) {
        UploadAction::ReadContent { extension } => assert_eq!(extension, "png"),
        a => panic!("unexpected {:?}", a),
    }
    match batch.on_event(UploadEvent::ContentFailed) {
        UploadAction::Refuse(r) => {
            assert_eq!(r.status, Status::Forbidden);
            assert_eq!(r.body, "incompleted upload");
        }
        a => panic!("unexpected {:?}", a),
    }
    assert!(batch.finish().is_empty());
}

#[test]
fn content_is_written_under_its_digest() {
    let mut batch = UploadBatch::new();
    batch.on_event(UploadEvent::FieldOffered);
    match batch.on_event(UploadEvent::ContentRead { content: vec![], extension: "gif".to_string() }) {
        UploadAction::Write { path, content } => {
            assert_eq!(path, format!("./static/image/{}.gif", EMPTY_KECCAK));
            assert!(content.is_empty());
        }
        a => panic!("unexpected {:?}", a),
    }
    assert_eq!(batch.finish(), vec![format!("{}.gif", EMPTY_KECCAK)]);
}

#[test]
fn repeated_request_writes_same_files() {
    let fields: [(&str, &[u8]); 3] = [("a.JPG", b"one"), ("b.png", b"two"), ("c.jpg", b"one")];
    let first = run_request(&fields);
    let second = run_request(&fields);
    assert_eq!(first, second);
    assert_eq!(first[0].split(' ').next(), first[2].split(' ').next());
    let refused = run_request(&[("a.png", b"x"), ("b.exe", b"y")]);
    assert_eq!(refused.len(), 2);
    assert!(refused[1].contains("non-image upload"));
}

#[test]
fn request_beyond_twenty_fields_is_its_first_twenty() {
    let contents: Vec<Vec<u8>> = (0..22u8).map(|i| vec![i]).collect();
    let mut fields: Vec<(&str, &[u8])> = contents.iter().map(|c| ("img.png", c.as_slice())).collect();
    // The fields after the twentieth would be refused if they were ever looked at.
    fields[20] = ("virus.exe", b"x");
    fields[21] = ("virus.exe", b"y");
    let long = run_request(&fields);
    let short = run_request(&fields[..20]);
    assert_eq!(long, short);
    assert!(!long.iter().any(|line| line.contains("non-image upload")));
}
