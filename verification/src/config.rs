//! The patcher configuration: the key/value settings served next to the
//! patch data, with their built-in defaults.

use vstd::prelude::*;

use crate::text::{
    first_occ, lemma_first_occ_decomposition, lemma_first_occ_none, quote_pred, space_pred,
    spec_split, split_once_str, split_str, str_eq, trim_quotes, trim_seq, trim_spaces,
};

verus! {

/// A comma-separated list of paths to leave alone.
#[derive(Debug, Clone)]
pub struct ExcludeList {
    paths: Vec<String>,
}

impl View for ExcludeList {
    type V = Seq<Seq<char>>;

    closed spec fn view(&self) -> Seq<Seq<char>> {
        self.paths@.map_values(|p: String| p@)
    }
}

impl ExcludeList {
    /// Parse a comma-separated list of paths.  This cannot fail: every
    /// string is a list.
    pub fn parse(s: &str) -> (r: ExcludeList)
        ensures
            r@ == spec_split(s@, ','),
    {
        ExcludeList { paths: split_str(s, ',') }
    }
}

/// `Yes` and `True` are the configuration's true values; everything else
/// reads as false.
pub open spec fn spec_is_true(s: Seq<char>) -> bool {
    s == "Yes"@ || s == "True"@
}

/// Whether a configuration value reads as true.
pub fn is_true(s: &str) -> (r: bool)
    ensures
        r == spec_is_true(s@),
{
    str_eq(s, "Yes") || str_eq(s, "True")
}

/// The settings of one patcher instance.
#[derive(Debug, Clone)]
pub struct PatcherConfig {
    pub patcherexeversion: String,
    pub serverdirectory: String,
    pub downloaddirectory: String,
    pub patcherdirectory: String,
    pub installerdirectory: String,
    pub versionfile: String,
    pub indexfile: String,
    pub defaultmanifestfile: String,
    pub minimalmanifestfile: String,
    pub hotfixmanifestfile: String,
    pub packcatalog: String,
    pub defaultinstallpath: String,
    pub installkey: String,
    pub installfile: String,
    pub configfile: String,
    pub win_exclude: ExcludeList,
    pub mac_exclude: ExcludeList,
    pub noclean: Vec<String>,
    pub caption: String,
    pub cachefile: String,
    pub check: bool,
    pub quickcheck: bool,
    pub clean: bool,
    pub log: bool,
    pub waitstart: bool,
    pub usedefaultinstallpath: bool,
    pub usedynamicdownload: bool,
}

impl Default for PatcherConfig {
    /// The built-in settings, used for every key the configuration text
    /// does not override.
    fn default() -> (r: Self)
        ensures
            r.patcherexeversion@ == Seq::<char>::empty(),
            r.serverdirectory@ == "lwoclient"@,
            r.downloaddirectory@ == "versions"@,
            r.patcherdirectory@ == "patcher"@,
            r.installerdirectory@ == "installer"@,
            r.versionfile@ == "version.txt"@,
            r.indexfile@ == "index.txt"@,
            r.defaultmanifestfile@ == "trunk.txt"@,
            r.minimalmanifestfile@ == "frontend.txt"@,
            r.hotfixmanifestfile@ == "hotfix.txt"@,
            r.packcatalog@ == "primary.pki"@,
            r.defaultinstallpath@ == ".."@,
            r.installkey@ == "Software\\NetDevil\\LEGO Universe"@,
            r.installfile@ == "lego_universe_install.exe"@,
            r.configfile@ == "{%installpath}\\client\\boot.cfg"@,
            r.win_exclude@ == seq![
                "client/legouniverse_mac.exe"@,
                "client/stlport.5.2.dll"@,
                "cider/*"@,
                "patcher/*"@,
            ],
            r.mac_exclude@ == seq![
                "client/legouniverse.exe"@,
                "client/d3dx9_34.dll"@,
                "client/awesomium.dll"@,
                "patcher/*"@,
            ],
            r.noclean@.len() == 0,
            r.caption@ == "LEGO Universe Updater"@,
            r.cachefile@ == "quickcheck.txt"@,
            r.check == true,
            r.quickcheck == true,
            r.clean == true,
            r.log == true,
            r.waitstart == true,
            r.usedefaultinstallpath == true,
            r.usedynamicdownload == true,
    {
        let mut win_paths: Vec<String> = Vec::new();
        win_paths.push("client/legouniverse_mac.exe".to_owned());
        win_paths.push("client/stlport.5.2.dll".to_owned());
        win_paths.push("cider/*".to_owned());
        win_paths.push("patcher/*".to_owned());
        let mut mac_paths: Vec<String> = Vec::new();
        mac_paths.push("client/legouniverse.exe".to_owned());
        mac_paths.push("client/d3dx9_34.dll".to_owned());
        mac_paths.push("client/awesomium.dll".to_owned());
        mac_paths.push("patcher/*".to_owned());
        let r = PatcherConfig {
            patcherexeversion: String::new(),
            serverdirectory: "lwoclient".to_owned(),
            downloaddirectory: "versions".to_owned(),
            patcherdirectory: "patcher".to_owned(),
            installerdirectory: "installer".to_owned(),
            versionfile: "version.txt".to_owned(),
            indexfile: "index.txt".to_owned(),
            defaultmanifestfile: "trunk.txt".to_owned(),
            minimalmanifestfile: "frontend.txt".to_owned(),
            hotfixmanifestfile: "hotfix.txt".to_owned(),
            packcatalog: "primary.pki".to_owned(),
            defaultinstallpath: "..".to_owned(),
            installkey: "Software\\NetDevil\\LEGO Universe".to_owned(),
            installfile: "lego_universe_install.exe".to_owned(),
            configfile: "{%installpath}\\client\\boot.cfg".to_owned(),
            win_exclude: ExcludeList { paths: win_paths },
            mac_exclude: ExcludeList { paths: mac_paths },
            noclean: Vec::new(),
            caption: "LEGO Universe Updater".to_owned(),
            cachefile: "quickcheck.txt".to_owned(),
            check: true,
            quickcheck: true,
            clean: true,
            log: true,
            waitstart: true,
            usedefaultinstallpath: true,
            usedynamicdownload: true,
        };
        proof {
            assert(r.win_exclude@ =~= seq![
                "client/legouniverse_mac.exe"@,
                "client/stlport.5.2.dll"@,
                "cider/*"@,
                "patcher/*"@,
            ]);
            assert(r.mac_exclude@ =~= seq![
                "client/legouniverse.exe"@,
                "client/d3dx9_34.dll"@,
                "client/awesomium.dll"@,
                "patcher/*"@,
            ]);
        }
        r
    }
}

/// The error of the configuration parser.
#[derive(Debug, Clone, PartialEq, Eq)]
pub enum Error {
    /// A line assigned a value to this key, which is not a setting
    UnknownKey(String),
}

// ---------------------------------------------------------------------------
// The key/value text format
// ---------------------------------------------------------------------------

/// The key and processed value a line assigns, if any.  Comment lines and
/// lines without `=` assign nothing; otherwise the key is everything
/// before the first `=` and the value is the rest, with surrounding
/// whitespace and then surrounding quotes removed.
pub open spec fn line_kv(line: Seq<char>) -> Option<(Seq<char>, Seq<char>)> {
    if line.len() > 0 && line[0] == '#' {
        None
    } else {
        let i = first_occ(line, '=');
        if i < 0 {
            None
        } else {
            Some(
                (
                    line.take(i),
                    trim_seq(trim_seq(line.skip(i + 1), space_pred()), quote_pred()),
                ),
            )
        }
    }
}

/// The keys the configuration knows.
pub open spec fn known_key(k: Seq<char>) -> bool {
    ||| k == "patcherexeversion"@
    ||| k == "serverdirectory"@
    ||| k == "downloaddirectory"@
    ||| k == "patcherdirectory"@
    ||| k == "installerdirectory"@
    ||| k == "versionfile"@
    ||| k == "indexfile"@
    ||| k == "defaultmanifestfile"@
    ||| k == "minimalmanifestfile"@
    ||| k == "hotfixmanifestfile"@
    ||| k == "packcatalog"@
    ||| k == "defaultinstallpath"@
    ||| k == "installkey"@
    ||| k == "installfile"@
    ||| k == "configfile"@
    ||| k == "win_exclude"@
    ||| k == "mac_exclude"@
    ||| k == "noclean"@
    ||| k == "caption"@
    ||| k == "cachefile"@
    ||| k == "check"@
    ||| k == "quickcheck"@
    ||| k == "clean"@
    ||| k == "log"@
    ||| k == "waitstart"@
    ||| k == "usedefaultinstallpath"@
    ||| k == "usedynamicdownload"@
}

/// A line that assigns a value to a key the configuration does not know.
pub open spec fn is_unknown_line(l: Seq<char>) -> bool {
    line_kv(l) matches Some(kv) && !known_key(kv.0)
}

proof fn lemma_config_keys()
    ensures
        "patcherexeversion"@.len() == 17,
        "serverdirectory"@.len() == 15,
        "downloaddirectory"@.len() == 17,
        "patcherdirectory"@.len() == 16,
        "installerdirectory"@.len() == 18,
        "versionfile"@.len() == 11,
        "indexfile"@.len() == 9,
        "defaultmanifestfile"@.len() == 19,
        "minimalmanifestfile"@.len() == 19,
        "hotfixmanifestfile"@.len() == 18,
        "packcatalog"@.len() == 11,
        "defaultinstallpath"@.len() == 18,
        "installkey"@.len() == 10,
        "installfile"@.len() == 11,
        "configfile"@.len() == 10,
        "win_exclude"@.len() == 11,
        "mac_exclude"@.len() == 11,
        "noclean"@.len() == 7,
        "caption"@.len() == 7,
        "cachefile"@.len() == 9,
        "check"@.len() == 5,
        "quickcheck"@.len() == 10,
        "clean"@.len() == 5,
        "log"@.len() == 3,
        "waitstart"@.len() == 9,
        "usedefaultinstallpath"@.len() == 21,
        "usedynamicdownload"@.len() == 18,
        "patcherexeversion"@[0] == 'p',
        "patcherexeversion"@[1] == 'a',
        "downloaddirectory"@[0] == 'd',
        "downloaddirectory"@[1] == 'o',
        "installerdirectory"@[0] == 'i',
        "installerdirectory"@[1] == 'n',
        "hotfixmanifestfile"@[0] == 'h',
        "hotfixmanifestfile"@[1] == 'o',
        "defaultinstallpath"@[0] == 'd',
        "defaultinstallpath"@[1] == 'e',
        "usedynamicdownload"@[0] == 'u',
        "usedynamicdownload"@[1] == 's',
        "versionfile"@[0] == 'v',
        "versionfile"@[1] == 'e',
        "packcatalog"@[0] == 'p',
        "packcatalog"@[1] == 'a',
        "installfile"@[0] == 'i',
        "installfile"@[1] == 'n',
        "win_exclude"@[0] == 'w',
        "win_exclude"@[1] == 'i',
        "mac_exclude"@[0] == 'm',
        "mac_exclude"@[1] == 'a',
        "indexfile"@[0] == 'i',
        "indexfile"@[1] == 'n',
        "cachefile"@[0] == 'c',
        "cachefile"@[1] == 'a',
        "waitstart"@[0] == 'w',
        "waitstart"@[1] == 'a',
        "defaultmanifestfile"@[0] == 'd',
        "defaultmanifestfile"@[1] == 'e',
        "minimalmanifestfile"@[0] == 'm',
        "minimalmanifestfile"@[1] == 'i',
        "installkey"@[0] == 'i',
        "installkey"@[1] == 'n',
        "configfile"@[0] == 'c',
        "configfile"@[1] == 'o',
        "quickcheck"@[0] == 'q',
        "quickcheck"@[1] == 'u',
        "noclean"@[0] == 'n',
        "noclean"@[1] == 'o',
        "caption"@[0] == 'c',
        "caption"@[1] == 'a',
        "check"@[0] == 'c',
        "check"@[1] == 'h',
        "clean"@[0] == 'c',
        "clean"@[1] == 'l',
{
    reveal_strlit("patcherexeversion");
    reveal_strlit("serverdirectory");
    reveal_strlit("downloaddirectory");
    reveal_strlit("patcherdirectory");
    reveal_strlit("installerdirectory");
    reveal_strlit("versionfile");
    reveal_strlit("indexfile");
    reveal_strlit("defaultmanifestfile");
    reveal_strlit("minimalmanifestfile");
    reveal_strlit("hotfixmanifestfile");
    reveal_strlit("packcatalog");
    reveal_strlit("defaultinstallpath");
    reveal_strlit("installkey");
    reveal_strlit("installfile");
    reveal_strlit("configfile");
    reveal_strlit("win_exclude");
    reveal_strlit("mac_exclude");
    reveal_strlit("noclean");
    reveal_strlit("caption");
    reveal_strlit("cachefile");
    reveal_strlit("check");
    reveal_strlit("quickcheck");
    reveal_strlit("clean");
    reveal_strlit("log");
    reveal_strlit("waitstart");
    reveal_strlit("usedefaultinstallpath");
    reveal_strlit("usedynamicdownload");
}

/// The index of the first line with an unknown key, or `-1`.
pub open spec fn first_unknown(lines: Seq<Seq<char>>) -> int
    decreases lines.len(),
{
    if lines.len() == 0 {
        -1
    } else if is_unknown_line(lines[0]) {
        0
    } else {
        let r = first_unknown(lines.skip(1));
        if r == -1 {
            -1
        } else {
            r + 1
        }
    }
}

proof fn lemma_first_unknown_at(lines: Seq<Seq<char>>, j: int)
    requires
        0 <= j <= lines.len(),
        forall|i: int| 0 <= i < j ==> !is_unknown_line(#[trigger] lines[i]),
        j < lines.len() ==> is_unknown_line(lines[j]),
    ensures
        j == lines.len() ==> first_unknown(lines) == -1,
        j < lines.len() ==> first_unknown(lines) == j,
    decreases j + 1,
{
    if lines.len() == 0 {
    } else if j == 0 {
    } else {
        assert(!is_unknown_line(lines[0]));
        assert(forall|i: int| 0 <= i < lines.skip(1).len() ==> lines.skip(1)[i] == lines[i + 1]);
        lemma_first_unknown_at(lines.skip(1), j - 1);
    }
}

/// The processed value of the last line that assigns to `key`, if any.
pub open spec fn config_value(lines: Seq<Seq<char>>, key: Seq<char>) -> Option<Seq<char>>
    decreases lines.len(),
{
    if lines.len() == 0 {
        None
    } else if line_kv(lines.last()) matches Some(kv) && kv.0 == key {
        Some(line_kv(lines.last()).unwrap().1)
    } else {
        config_value(lines.drop_last(), key)
    }
}

/// Every value assigned to `noclean`, in order.
pub open spec fn noclean_values(lines: Seq<Seq<char>>) -> Seq<Seq<char>>
    decreases lines.len(),
{
    if lines.len() == 0 {
        Seq::<Seq<char>>::empty()
    } else if line_kv(lines.last()) matches Some(kv) && kv.0 == "noclean"@ {
        noclean_values(lines.drop_last()).push(line_kv(lines.last()).unwrap().1)
    } else {
        noclean_values(lines.drop_last())
    }
}

/// A string setting: the last assigned value, or its default.
pub open spec fn str_setting(lines: Seq<Seq<char>>, key: Seq<char>, dflt: Seq<char>) -> Seq<char> {
    match config_value(lines, key) {
        Some(v) => v,
        None => dflt,
    }
}

/// A boolean setting: whether the last assigned value reads as true, or
/// its default.
pub open spec fn bool_setting(lines: Seq<Seq<char>>, key: Seq<char>, dflt: bool) -> bool {
    match config_value(lines, key) {
        Some(v) => spec_is_true(v),
        None => dflt,
    }
}

/// A list setting: the last assigned value split at commas, or its
/// default.
pub open spec fn list_setting(
    lines: Seq<Seq<char>>,
    key: Seq<char>,
    dflt: Seq<Seq<char>>,
) -> Seq<Seq<char>> {
    match config_value(lines, key) {
        Some(v) => spec_split(v, ','),
        None => dflt,
    }
}

pub open spec fn win_exclude_default() -> Seq<Seq<char>> {
    seq![
        "client/legouniverse_mac.exe"@,
        "client/stlport.5.2.dll"@,
        "cider/*"@,
        "patcher/*"@,
    ]
}

pub open spec fn mac_exclude_default() -> Seq<Seq<char>> {
    seq![
        "client/legouniverse.exe"@,
        "client/d3dx9_34.dll"@,
        "client/awesomium.dll"@,
        "patcher/*"@,
    ]
}

/// Every field of the configuration carries what the lines assign it, or
/// its default.
pub open spec fn cfg_matches(cfg: PatcherConfig, lines: Seq<Seq<char>>) -> bool {
    &&& cfg.patcherexeversion@ == str_setting(lines, "patcherexeversion"@, Seq::<char>::empty())
    &&& cfg.serverdirectory@ == str_setting(lines, "serverdirectory"@, "lwoclient"@)
    &&& cfg.downloaddirectory@ == str_setting(lines, "downloaddirectory"@, "versions"@)
    &&& cfg.patcherdirectory@ == str_setting(lines, "patcherdirectory"@, "patcher"@)
    &&& cfg.installerdirectory@ == str_setting(lines, "installerdirectory"@, "installer"@)
    &&& cfg.versionfile@ == str_setting(lines, "versionfile"@, "version.txt"@)
    &&& cfg.indexfile@ == str_setting(lines, "indexfile"@, "index.txt"@)
    &&& cfg.defaultmanifestfile@ == str_setting(lines, "defaultmanifestfile"@, "trunk.txt"@)
    &&& cfg.minimalmanifestfile@ == str_setting(lines, "minimalmanifestfile"@, "frontend.txt"@)
    &&& cfg.hotfixmanifestfile@ == str_setting(lines, "hotfixmanifestfile"@, "hotfix.txt"@)
    &&& cfg.packcatalog@ == str_setting(lines, "packcatalog"@, "primary.pki"@)
    &&& cfg.defaultinstallpath@ == str_setting(lines, "defaultinstallpath"@, ".."@)
    &&& cfg.installkey@ == str_setting(
        lines,
        "installkey"@,
        "Software\\NetDevil\\LEGO Universe"@,
    )
    &&& cfg.installfile@ == str_setting(lines, "installfile"@, "lego_universe_install.exe"@)
    &&& cfg.configfile@ == str_setting(lines, "configfile"@, "{%installpath}\\client\\boot.cfg"@)
    &&& cfg.win_exclude@ == list_setting(lines, "win_exclude"@, win_exclude_default())
    &&& cfg.mac_exclude@ == list_setting(lines, "mac_exclude"@, mac_exclude_default())
    &&& cfg.noclean@.map_values(|p: String| p@) == noclean_values(lines)
    &&& cfg.caption@ == str_setting(lines, "caption"@, "LEGO Universe Updater"@)
    &&& cfg.cachefile@ == str_setting(lines, "cachefile"@, "quickcheck.txt"@)
    &&& cfg.check == bool_setting(lines, "check"@, true)
    &&& cfg.quickcheck == bool_setting(lines, "quickcheck"@, true)
    &&& cfg.clean == bool_setting(lines, "clean"@, true)
    &&& cfg.log == bool_setting(lines, "log"@, true)
    &&& cfg.waitstart == bool_setting(lines, "waitstart"@, true)
    &&& cfg.usedefaultinstallpath == bool_setting(lines, "usedefaultinstallpath"@, true)
    &&& cfg.usedynamicdownload == bool_setting(lines, "usedynamicdownload"@, true)
}

impl PatcherConfig {
    /// The staging-area cache key of the patcher's own configuration
    /// file.
    pub fn config_key(&self) -> (r: String)
        ensures
            r@ == self.patcherdirectory@ + "/patcher.ini"@,
    {
        let mut r = self.patcherdirectory.clone();
        r.append("/patcher.ini");
        r
    }

    /// The staging-area cache key of the installer executable.
    pub fn install_file_key(&self) -> (r: String)
        ensures
            r@ == self.installerdirectory@ + "/"@ + self.installfile@,
    {
        let mut r = self.installerdirectory.clone();
        r.append("/");
        r.append(self.installfile.as_str());
        r
    }

    /// Parse a configuration text: one `key=value` setting per line over
    /// the defaults, comment lines starting with `#` and lines without
    /// `=` skipped, later assignments overriding earlier ones, and an
    /// unknown key fatal.
    #[verifier::rlimit(100)]
    pub fn parse(s: &str) -> (r: Result<PatcherConfig, Error>)
        ensures
            ({
                let lines = spec_split(s@, '\n');
                match r {
                    Ok(cfg) => first_unknown(lines) == -1 && cfg_matches(cfg, lines),
                    Err(e) => e matches Error::UnknownKey(k) && ({
                        let i = first_unknown(lines);
                        i >= 0 && (line_kv(lines[i]) matches Some(kv) && kv.0 == k@)
                    }),
                }
            }),
    {
        let ghost lines = spec_split(s@, '\n');
        let mut cfg = PatcherConfig::default();
        let pieces = split_str(s, '\n');
        let n = pieces.len();
        proof {
            assert(lines.take(0) =~= Seq::<Seq<char>>::empty());
            assert(cfg.noclean@.map_values(|p: String| p@) =~= Seq::<Seq<char>>::empty());
            assert(cfg_matches(cfg, lines.take(0)));
        }
        let mut j: usize = 0;
        while j < n
            invariant
                0 <= j <= n,
                n == pieces@.len(),
                lines == pieces@.map_values(|p: String| p@),
                lines == spec_split(s@, '\n'),
                lines.len() == n,
                cfg_matches(cfg, lines.take(j as int)),
                forall|i: int| 0 <= i < j ==> !is_unknown_line(#[trigger] lines[i]),
            decreases n - j,
        {
            let line = pieces[j].as_str();
            let ghost lv = lines[j as int];
            proof {
                assert(lv == pieces@[j as int]@);
                assert(lines.take(j + 1).drop_last() =~= lines.take(j as int));
                assert(lines.take(j + 1).last() == lv);
            }
            let llen = line.unicode_len();
            if llen > 0 && line.get_char(0) == '#' {
                proof {
                    assert(line_kv(lv) is None);
                    assert(cfg_matches(cfg, lines.take(j + 1)));
                }
                j = j + 1;
                continue ;
            }
            let kv = match split_once_str(line, '=') {
                Some(p) => p,
                None => {
                    proof {
                        lemma_first_occ_none(lv, '=');
                        assert(line_kv(lv) is None);
                        assert(cfg_matches(cfg, lines.take(j + 1)));
                    }
                    j = j + 1;
                    continue ;
                },
            };
            let (key, rawval) = kv;
            let v1 = trim_spaces(rawval.as_str());
            let value = trim_quotes(v1.as_str());
            proof {
                lemma_first_occ_decomposition(lv, key@, rawval@, '=');
                assert(lv.take(key@.len() as int) =~= key@);
                assert(lv.skip(key@.len() as int + 1) =~= rawval@);
                assert(line_kv(lv) == Some((key@, value@)));
            }
            let ghost val = value@;
            let ghost cfg0 = cfg;
            if str_eq(key.as_str(), "patcherexeversion") {
                cfg.patcherexeversion = value;
            } else if str_eq(key.as_str(), "serverdirectory") {
                cfg.serverdirectory = value;
            } else if str_eq(key.as_str(), "downloaddirectory") {
                cfg.downloaddirectory = value;
            } else if str_eq(key.as_str(), "patcherdirectory") {
                cfg.patcherdirectory = value;
            } else if str_eq(key.as_str(), "installerdirectory") {
                cfg.installerdirectory = value;
            } else if str_eq(key.as_str(), "versionfile") {
                cfg.versionfile = value;
            } else if str_eq(key.as_str(), "indexfile") {
                cfg.indexfile = value;
            } else if str_eq(key.as_str(), "defaultmanifestfile") {
                cfg.defaultmanifestfile = value;
            } else if str_eq(key.as_str(), "minimalmanifestfile") {
                cfg.minimalmanifestfile = value;
            } else if str_eq(key.as_str(), "hotfixmanifestfile") {
                cfg.hotfixmanifestfile = value;
            } else if str_eq(key.as_str(), "packcatalog") {
                cfg.packcatalog = value;
            } else if str_eq(key.as_str(), "defaultinstallpath") {
                cfg.defaultinstallpath = value;
            } else if str_eq(key.as_str(), "installkey") {
                cfg.installkey = value;
            } else if str_eq(key.as_str(), "installfile") {
                cfg.installfile = value;
            } else if str_eq(key.as_str(), "configfile") {
                cfg.configfile = value;
            } else if str_eq(key.as_str(), "win_exclude") {
                cfg.win_exclude = ExcludeList::parse(value.as_str());
            } else if str_eq(key.as_str(), "mac_exclude") {
                cfg.mac_exclude = ExcludeList::parse(value.as_str());
            } else if str_eq(key.as_str(), "noclean") {
                proof {
                    assert((cfg.noclean@.push(value)).map_values(|p: String| p@)
                        =~= cfg.noclean@.map_values(|p: String| p@).push(value@));
                }
                cfg.noclean.push(value);
            } else if str_eq(key.as_str(), "caption") {
                cfg.caption = value;
            } else if str_eq(key.as_str(), "cachefile") {
                cfg.cachefile = value;
            } else if str_eq(key.as_str(), "check") {
                cfg.check = is_true(value.as_str());
            } else if str_eq(key.as_str(), "quickcheck") {
                cfg.quickcheck = is_true(value.as_str());
            } else if str_eq(key.as_str(), "clean") {
                cfg.clean = is_true(value.as_str());
            } else if str_eq(key.as_str(), "log") {
                cfg.log = is_true(value.as_str());
            } else if str_eq(key.as_str(), "waitstart") {
                cfg.waitstart = is_true(value.as_str());
            } else if str_eq(key.as_str(), "usedefaultinstallpath") {
                cfg.usedefaultinstallpath = is_true(value.as_str());
            } else if str_eq(key.as_str(), "usedynamicdownload") {
                cfg.usedynamicdownload = is_true(value.as_str());
            } else {
                proof {
                    assert(is_unknown_line(lv));
                    lemma_first_unknown_at(lines, j as int);
                }
                return Err(Error::UnknownKey(key));
            }
            proof {
                lemma_config_keys();
                assert forall|k: Seq<char>| k != key@ implies #[trigger] config_value(
                    lines.take(j + 1),
                    k,
                ) == config_value(lines.take(j as int), k) by {
                    assert(lines.take(j + 1).drop_last() =~= lines.take(j as int));
                }
                assert(line_kv(lv) == Some((key@, val)));
                assert(config_value(lines.take(j + 1), key@) == Some(val));
                assert(cfg_matches(cfg, lines.take(j + 1)));
            }
            j = j + 1;
        }
        proof {
            assert(lines.take(n as int) =~= lines);
            lemma_first_unknown_at(lines, n as int);
        }
        Ok(cfg)
    }
}

} // verus!
