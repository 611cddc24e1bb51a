use forest_chat::attachments::{extension_of, safe_file_name, save_filter};
use forest_chat::files::{clean_name, upload_mime, valid_id, Uploads};

fn s(x: &str) -> String {
    x.to_string()
}

#[test]
fn only_generated_ids_name_files() {
    assert!(valid_id("3f2c1a9e-1b2c-4d5e-8f90-123456789abc"));
    assert!(valid_id("a"));
    assert!(!valid_id(""));
    assert!(!valid_id("../etc/passwd"));
    assert!(!valid_id("a.b"));
    assert!(!valid_id("é"));
    assert!(valid_id(&"a".repeat(64)));
    assert!(!valid_id(&"a".repeat(65)));
}

#[test]
fn an_upload_keeps_its_visible_name_only() {
    assert_eq!(clean_name("C:\\Users\\ana\\report.pdf"), "report.pdf");
    assert_eq!(clean_name("/tmp/../secret/ photo.jpg "), "photo.jpg");
    assert_eq!(clean_name("..hidden.."), "hidden");
    assert_eq!(clean_name("we\"ird\u{7}name.txt"), "weirdname.txt");
    assert_eq!(clean_name("dir/"), "file");
    assert_eq!(clean_name("  ...  "), "file");
    assert_eq!(clean_name(&"x".repeat(300)).chars().count(), 200);
}

#[test]
fn the_declared_type_wins_unless_it_says_nothing() {
    assert_eq!(upload_mime(Some(s("video/mp4")), "clip.mov"), "video/mp4");
    assert_eq!(upload_mime(Some(s("application/octet-stream")), "photo.png"), "image/png");
    assert_eq!(upload_mime(None, "doc.pdf"), "application/pdf");
    assert_eq!(upload_mime(None, "noext"), "application/octet-stream");
}

#[test]
fn an_attachment_lives_in_the_uploads_directory() {
    let uploads = Uploads::new(s("data/uploads"));
    let p = uploads.path("abc-123");
    assert_eq!(std::path::Path::new(&p), std::path::Path::new("data/uploads").join("abc-123"));
    assert_ne!(p, "abc-123");
}

#[test]
fn saved_names_are_safe_on_every_file_system() {
    assert_eq!(safe_file_name("a<b>c:d\"e|f?g*h.txt"), "a_b_c_d_e_f_g_h.txt");
    assert_eq!(safe_file_name("folder\\sub/file.mp4"), "file.mp4");
    assert_eq!(safe_file_name("  .report.  "), "report");
    assert_eq!(safe_file_name("tab\there"), "tab_here");
    assert_eq!(safe_file_name(""), "file");
    assert_eq!(safe_file_name("..."), "file");
    assert_eq!(safe_file_name(&"y".repeat(250)).chars().count(), 200);
}

#[test]
fn the_save_dialog_filters_by_extension() {
    assert_eq!(extension_of("movie.mp4"), Some(s("mp4")));
    assert_eq!(extension_of("archive.tar.gz"), Some(s("gz")));
    assert_eq!(extension_of(".bashrc"), None);
    assert_eq!(extension_of("README"), None);
    assert_eq!(save_filter("movie.mp4"), Some((s("MP4 file"), s("mp4"))));
    assert_eq!(save_filter("README"), None);
}
