use reaper_theme_packer::table::{ConfigTable, ResourceManifest};
use reaper_theme_packer::theme::{BuildError, BuildOptions, Theme};

#[test]
fn manifest_first_wins() {
    let mut m = ResourceManifest::new();
    assert!(m.insert_first_wins(b"img/a.png".to_vec(), b"/one/a.png".to_vec()));
    assert!(m.insert_first_wins(b"img/b.png".to_vec(), b"/one/b.png".to_vec()));
    // the second registration of a destination is dropped, not overwritten
    assert!(!m.insert_first_wins(b"img/a.png".to_vec(), b"/two/a.png".to_vec()));
    let entries = m.entries();
    assert_eq!(entries.len(), 2);
    assert_eq!(entries[0].dest, b"img/a.png".to_vec());
    assert_eq!(entries[0].source, b"/one/a.png".to_vec());
    assert_eq!(entries[1].dest, b"img/b.png".to_vec());
    assert!(m.contains_dest(b"img/a.png"));
    assert!(!m.contains_dest(b"img/c.png"));
}

#[test]
fn config_set_and_overwrite() {
    let mut t = ConfigTable::new();
    t.set(Some(b"s".to_vec()), b"k".to_vec(), b"v1".to_vec());
    t.set(Some(b"s".to_vec()), b"k".to_vec(), b"v2".to_vec());
    t.set(Some(b"s".to_vec()), b"k2".to_vec(), b"w".to_vec());
    t.set(Some(b"s2".to_vec()), b"k".to_vec(), b"x".to_vec());

    let sections = t.sections();
    assert_eq!(sections.len(), 2);
    assert_eq!(sections[0].entries.len(), 2);
    assert_eq!(sections[0].entries[0].value, b"v2".to_vec());
    assert_eq!(sections[1].name, Some(b"s2".to_vec()));
}

#[test]
fn theme_holds_its_artifacts() {
    let mut config = ConfigTable::new();
    config.set(None, b"k".to_vec(), b"v".to_vec());
    let mut resources = ResourceManifest::new();
    resources.insert_first_wins(b"a".to_vec(), b"b".to_vec());
    let theme = Theme::new(b"name".to_vec(), b"text\n".to_vec(), config, resources);
    assert_eq!(theme.name(), &b"name".to_vec());
    assert_eq!(theme.rtconfig(), &b"text\n".to_vec());
    assert_eq!(theme.reapertheme().sections().len(), 1);
    assert_eq!(theme.resources().entries().len(), 1);
}

#[test]
fn build_options_overwrite() {
    let opt = BuildOptions::default();
    assert!(!opt.overwrite_set());
    let opt = opt.overwrite(true);
    assert!(opt.overwrite_set());
    let opt = opt.overwrite(false);
    assert!(!opt.overwrite_set());
}

#[test]
fn build_error_message() {
    let e = BuildError::PathExistsError(b"out.zip".to_vec());
    assert_eq!(e.message(), "the output path already exists");
}
