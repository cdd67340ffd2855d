use mail_core::composition::{gen_multipart_mime, gen_multipart_text, MULTIPART_BOUNDARY_LENGTH};
use mail_core::default_impl::component_id::RandomContentId;
use mail_core::default_impl::fs::FSFileLoader;
use mail_core::default_impl::name_composer::NoNameComposer;
use mail_core::default_impl::vfs::{normalize_path, VFSFileLoader};
use mail_core::error::FileLoadError;

#[test]
fn ok_if_registered() {
    let mut fl = VFSFileLoader::new();
    fl.register_file("/my/resource.png", b"abcde".to_vec()).unwrap();
    let res = fl.load_file("/my/resource.png");
    assert!(res.is_ok());
    let buf = res.unwrap();
    assert_eq!(b"abcde".to_vec(), buf);
}

#[test]
fn err_if_not_registered() {
    let mut fl = VFSFileLoader::new();
    fl.register_file("/my/resource.png", b"abcde".to_vec()).unwrap();
    let res = fl.load_file("/not/my/resource.png");
    assert_eq!(false, res.is_ok());
}

#[test]
fn handles_relative_paths_in_registry() {
    let mut fl = VFSFileLoader::new();
    fl.register_file("./my/resource.png", b"abcde".to_vec()).unwrap();
    let res = fl.load_file("/my/resource.png");
    assert!(res.is_ok());
    let buf = res.unwrap();
    assert_eq!(b"abcde".to_vec(), buf);
}

#[test]
fn handles_relative_paths_in_usage() {
    let mut fl = VFSFileLoader::new();
    fl.register_file("/my/resource.png", b"abcde".to_vec()).unwrap();
    let res = fl.load_file("./my/resource.png");
    assert!(res.is_ok());
    let buf = res.unwrap();
    assert_eq!(b"abcde".to_vec(), buf);
}

#[test]
fn register_replaces_and_returns_old_content() {
    let mut fl = VFSFileLoader::new();
    assert_eq!(fl.register_file("a/b", vec![1, 2]), Ok(None));
    assert_eq!(fl.register_file("/a/b", vec![3]), Ok(Some(vec![1, 2])));
    assert_eq!(fl.load_file("a/b"), Ok(vec![3]));
}

#[test]
fn not_found_names_the_path() {
    let fl = VFSFileLoader::new();
    assert_eq!(fl.load_file("x.png"), Err(FileLoadError::NotFound("/x.png".to_string())));
}

#[test]
fn normalize_path_examples() {
    assert_eq!(normalize_path("./my/resource.png"), "/my/resource.png");
    assert_eq!(normalize_path("my/resource.png"), "/my/resource.png");
    assert_eq!(normalize_path("/my/resource.png"), "/my/resource.png");
}

#[test]
fn fs_loader_resolves_relative_to_root() {
    let fl = FSFileLoader::new("/srv/mail".to_string());
    assert_eq!(fl.root(), "/srv/mail");
    assert_eq!(fl.resolve("img/a.png"), "/srv/mail/img/a.png");
    assert_eq!(fl.resolve("/etc/a.png"), "/etc/a.png");
    let fl2 = FSFileLoader::new("/srv/".to_string());
    assert_eq!(fl2.resolve("a"), "/srv/a");
}

#[test]
fn content_ids_have_the_postfix() {
    let gen = RandomContentId::new("bla.test");
    let id = gen.new_content_id();
    let id = id.as_str();
    assert_eq!(id.len(), 10 + 1 + "bla.test".len());
    assert!(id[..10].chars().all(|c| c.is_ascii_alphanumeric()));
    assert!(id.ends_with("@bla.test"));
    let id2 = gen.new_content_id();
    assert_ne!(id, id2.as_str());
}

#[test]
fn no_name_composer_composes_nothing() {
    assert_eq!(NoNameComposer.compose_name("a@b.c"), None);
}

#[test]
fn multipart_mime_has_a_random_boundary() {
    let prefix = "multipart/alternative; boundary=\"=_^";
    let mime = gen_multipart_text("alternative");
    assert!(mime.starts_with(prefix));
    assert!(mime.ends_with('"'));
    let boundary = &mime[prefix.len()..mime.len() - 1];
    assert_eq!(boundary.len(), MULTIPART_BOUNDARY_LENGTH);
    assert!(boundary.chars().all(|c| c.is_ascii_graphic() && c != '"' && c != '-' && c != '\\'));
    assert_ne!(mime, gen_multipart_text("alternative"));

    let parsed = gen_multipart_mime("alternative").unwrap();
    assert!(parsed.as_str().starts_with(prefix));
    assert!(gen_multipart_mime("alter native").is_err());
}

#[test]
fn default_loader_has_no_files() {
    let fl = VFSFileLoader::default();
    assert!(fl.load_file("/any/path").is_err());
    let fl = VFSFileLoader::new();
    assert!(fl.load_file("any").is_err());
}
