use lux_patcher::config::{is_true, Error, PatcherConfig};

#[test]
fn config_defaults() {
    let cfg = PatcherConfig::default();
    assert_eq!(cfg.patcherexeversion, "");
    assert_eq!(cfg.serverdirectory, "lwoclient");
    assert_eq!(cfg.downloaddirectory, "versions");
    assert_eq!(cfg.patcherdirectory, "patcher");
    assert_eq!(cfg.installerdirectory, "installer");
    assert_eq!(cfg.versionfile, "version.txt");
    assert_eq!(cfg.indexfile, "index.txt");
    assert_eq!(cfg.defaultmanifestfile, "trunk.txt");
    assert_eq!(cfg.minimalmanifestfile, "frontend.txt");
    assert_eq!(cfg.hotfixmanifestfile, "hotfix.txt");
    assert_eq!(cfg.packcatalog, "primary.pki");
    assert_eq!(cfg.defaultinstallpath, "..");
    assert_eq!(cfg.installfile, "lego_universe_install.exe");
    assert_eq!(cfg.configfile, "{%installpath}\\client\\boot.cfg");
    assert_eq!(cfg.cachefile, "quickcheck.txt");
    assert!(cfg.noclean.is_empty());
    assert!(cfg.check && cfg.quickcheck && cfg.clean && cfg.log);
    assert!(cfg.waitstart && cfg.usedefaultinstallpath && cfg.usedynamicdownload);
}

#[test]
fn config_parse_overrides() {
    let text = "# served configuration\n\
                serverdirectory=custom\n\
                cachefile= \"quoted.txt\" \n\
                check=Yes\n\
                quickcheck=No\n\
                clean=True\n\
                noclean=a\n\
                noclean=b\n\
                downloaddirectory=first\n\
                downloaddirectory=second\n\
                \n";
    let cfg = PatcherConfig::parse(text).unwrap();
    assert_eq!(cfg.serverdirectory, "custom");
    // Whitespace and quotes around the value are removed.
    assert_eq!(cfg.cachefile, "quoted.txt");
    assert!(cfg.check);
    assert!(!cfg.quickcheck);
    assert!(cfg.clean);
    // noclean accumulates; other keys take the last assignment.
    assert_eq!(cfg.noclean, vec!["a".to_owned(), "b".to_owned()]);
    assert_eq!(cfg.downloaddirectory, "second");
    // Untouched keys keep their defaults.
    assert_eq!(cfg.patcherdirectory, "patcher");
}

#[test]
fn config_values_trim_unicode_whitespace() {
    // Values are trimmed of any Unicode whitespace, as `str::trim` does:
    // here a no-break space and an ideographic space around the value.
    let text = "caption=\u{a0}titled\u{3000}\nserverdirectory=\u{2003}\"x\"\u{9}\n";
    let cfg = PatcherConfig::parse(text).unwrap();
    assert_eq!(cfg.caption, "titled");
    assert_eq!(cfg.serverdirectory, "x");
}

#[test]
fn config_parse_unknown_key() {
    let r = PatcherConfig::parse("serverdirectory=x\nbogus=1\n");
    assert_eq!(r.unwrap_err(), Error::UnknownKey("bogus".to_owned()));
}

#[test]
fn config_keys() {
    let cfg = PatcherConfig::default();
    assert_eq!(cfg.config_key(), "patcher/patcher.ini");
    assert_eq!(cfg.install_file_key(), "installer/lego_universe_install.exe");
}

#[test]
fn is_true_values() {
    assert!(is_true("Yes"));
    assert!(is_true("True"));
    assert!(!is_true("yes"));
    assert!(!is_true("true"));
    assert!(!is_true("No"));
    assert!(!is_true(""));
}
