//! Data for `boot.cfg`.
//!
//! The boot configuration is written in an LDF-style text: `key=type:value`
//! entries joined by a delimiter, where type 0 is a string, 1 a signed
//! integer, 5 an unsigned integer and 7 a boolean.  The configured path of
//! the file may carry `{%installpath}`-style tokens, resolved against the
//! chosen install directory.

use vstd::prelude::*;

use crate::text::{dec_int_seq, dec_seq, i32_to_dec, str_eq, u64_to_dec};

verus! {

/// A writer for LDF-style `key=type:value` lists.
pub struct LDFWriter {
    inner: String,
    first: bool,
    delim: String,
}

impl LDFWriter {
    /// The text written so far.
    pub closed spec fn text(&self) -> Seq<char> {
        self.inner@
    }

    /// Whether nothing has been written yet.
    pub closed spec fn at_start(&self) -> bool {
        self.first
    }

    /// The delimiter written between entries.
    pub closed spec fn delim_view(&self) -> Seq<char> {
        self.delim@
    }

    /// The delimiter the next entry will be preceded by: nothing for the
    /// first entry, the configured delimiter afterwards.
    pub open spec fn next_sep(&self) -> Seq<char> {
        if self.at_start() {
            Seq::<char>::empty()
        } else {
            self.delim_view()
        }
    }

    /// Start writing onto the given text, with `,` as the delimiter.
    pub fn new(inner: String) -> (w: LDFWriter)
        ensures
            w.text() == inner@,
            w.at_start(),
            w.delim_view() == ","@,
    {
        LDFWriter { inner, first: true, delim: ",".to_owned() }
    }

    fn check(&mut self)
        ensures
            final(self).text() == old(self).text() + old(self).next_sep(),
            !final(self).at_start(),
            final(self).delim_view() == old(self).delim_view(),
    {
        if self.first {
            self.first = false;
            proof {
                assert(self.inner@ =~= self.inner@ + Seq::<char>::empty());
            }
        } else {
            let d = self.delim.clone();
            self.inner.append(d.as_str());
        }
    }

    /// Use this delimiter between the entries still to come.
    pub fn set_delim(&mut self, delim: String)
        ensures
            final(self).text() == old(self).text(),
            final(self).at_start() == old(self).at_start(),
            final(self).delim_view() == delim@,
    {
        self.delim = delim;
    }

    /// Write a string entry, `key=0:value`.
    pub fn write_str(&mut self, key: &str, value: &str)
        ensures
            final(self).text() == old(self).text() + old(self).next_sep() + key@ + "=0:"@
                + value@,
            !final(self).at_start(),
            final(self).delim_view() == old(self).delim_view(),
    {
        self.check();
        self.inner.append(key);
        self.inner.append("=0:");
        self.inner.append(value);
    }

    /// Write a signed integer entry, `key=1:value`.
    pub fn write_i32(&mut self, key: &str, value: i32)
        ensures
            final(self).text() == old(self).text() + old(self).next_sep() + key@ + "=1:"@
                + dec_int_seq(value as int),
            !final(self).at_start(),
            final(self).delim_view() == old(self).delim_view(),
    {
        self.check();
        self.inner.append(key);
        self.inner.append("=1:");
        let v = i32_to_dec(value);
        self.inner.append(v.as_str());
    }

    /// Write an unsigned integer entry, `key=5:value`.
    pub fn write_u32(&mut self, key: &str, value: u32)
        ensures
            final(self).text() == old(self).text() + old(self).next_sep() + key@ + "=5:"@
                + dec_seq(value as nat),
            !final(self).at_start(),
            final(self).delim_view() == old(self).delim_view(),
    {
        self.check();
        self.inner.append(key);
        self.inner.append("=5:");
        let v = u64_to_dec(value as u64);
        self.inner.append(v.as_str());
    }

    /// Write a boolean entry, `key=7:1` or `key=7:0`.
    pub fn write_bool(&mut self, key: &str, value: bool)
        ensures
            final(self).text() == old(self).text() + old(self).next_sep() + key@ + (if value {
                "=7:1"@
            } else {
                "=7:0"@
            }),
            !final(self).at_start(),
            final(self).delim_view() == old(self).delim_view(),
    {
        self.check();
        self.inner.append(key);
        if value {
            self.inner.append("=7:1");
        } else {
            self.inner.append("=7:0");
        }
    }

    /// Hand back the written text.
    pub fn into_inner(self) -> (r: String)
        ensures
            r@ == self.text(),
    {
        self.inner
    }
}

/// The values written into `boot.cfg`.
#[derive(Debug, Clone)]
pub struct BootConfig {
    pub server_name: String,
    pub patch_server_ip: String,
    pub patch_server_port: i32,
    pub auth_server_ip: String,
    pub logging: i32,
    pub data_center_id: u32,
    pub cp_code: i32,
    pub akamai_dlm: bool,
    pub patch_server_dir: String,
    pub ugc_use_3d_services: bool,
    pub ugc_server_ip: String,
    pub ugc_server_dir: String,
    pub manifest_file: String,
    pub passurl: String,
    pub sign_in_url: String,
    pub sign_up_url: String,
    pub register_url: String,
    pub crash_log_url: String,
    pub locale: String,
    pub track_disk_usage: bool,
}

/// The delimiter of the boot configuration: comma and line break.
pub open spec fn boot_delim() -> Seq<char> {
    ",\r\n"@
}

/// A boolean entry's value part.
pub open spec fn bool_part(b: bool) -> Seq<char> {
    if b {
        "=7:1"@
    } else {
        "=7:0"@
    }
}

/// The full text of `boot.cfg` for these values.
pub open spec fn spec_boot_cfg(c: BootConfig) -> Seq<char> {
    "SERVERNAME"@ + "=0:"@ + c.server_name@ + boot_delim() + "PATCHSERVERIP"@ + "=0:"@
        + c.patch_server_ip@ + boot_delim() + "PATCHSERVERPORT"@ + "=1:"@ + dec_int_seq(
        c.patch_server_port as int,
    ) + boot_delim() + "AUTHSERVERIP"@ + "=0:"@ + c.auth_server_ip@ + boot_delim() + "LOGGING"@
        + "=1:"@ + dec_int_seq(c.logging as int) + boot_delim() + "DATACENTERID"@ + "=5:"@
        + dec_seq(c.data_center_id as nat) + boot_delim() + "CPCODE"@ + "=1:"@ + dec_int_seq(
        c.cp_code as int,
    ) + boot_delim() + "AKAMAIDLM"@ + bool_part(c.akamai_dlm) + boot_delim() + "AKAMAIDLM"@
        + "=0:"@ + c.patch_server_dir@ + boot_delim() + "UGCUSE3DSERVICES"@ + bool_part(
        c.ugc_use_3d_services,
    ) + boot_delim() + "UGCSERVERIP"@ + "=0:"@ + c.ugc_server_ip@ + boot_delim() + "UGCSERVERDIR"@
        + "=0:"@ + c.ugc_server_dir@ + boot_delim() + "MANIFESTFILE"@ + "=0:"@ + c.manifest_file@
        + boot_delim() + "PASSURL"@ + "=0:"@ + c.passurl@ + boot_delim() + "SIGNINURL"@ + "=0:"@
        + c.sign_in_url@ + boot_delim() + "SIGNUPURL"@ + "=0:"@ + c.sign_up_url@ + boot_delim()
        + "REGISTERURL"@ + "=0:"@ + c.register_url@ + boot_delim() + "CRASHLOGURL"@ + "=0:"@
        + c.crash_log_url@ + boot_delim() + "LOCALE"@ + "=0:"@ + c.locale@ + boot_delim()
        + "TRACK_DSK_USAGE"@ + bool_part(c.track_disk_usage)
}

impl BootConfig {
    /// Render the boot configuration as LDF text, entries separated by
    /// comma and line break.
    #[verifier::rlimit(60)]
    pub fn to_cfg(&self) -> (r: String)
        ensures
            r@ == spec_boot_cfg(*self),
    {
        let mut writer = LDFWriter::new(String::new());
        writer.set_delim(",\r\n".to_owned());
        writer.write_str("SERVERNAME", self.server_name.as_str());
        writer.write_str("PATCHSERVERIP", self.patch_server_ip.as_str());
        writer.write_i32("PATCHSERVERPORT", self.patch_server_port);
        writer.write_str("AUTHSERVERIP", self.auth_server_ip.as_str());
        writer.write_i32("LOGGING", self.logging);
        writer.write_u32("DATACENTERID", self.data_center_id);
        writer.write_i32("CPCODE", self.cp_code);
        writer.write_bool("AKAMAIDLM", self.akamai_dlm);
        writer.write_str("AKAMAIDLM", self.patch_server_dir.as_str());
        writer.write_bool("UGCUSE3DSERVICES", self.ugc_use_3d_services);
        writer.write_str("UGCSERVERIP", self.ugc_server_ip.as_str());
        writer.write_str("UGCSERVERDIR", self.ugc_server_dir.as_str());
        writer.write_str("MANIFESTFILE", self.manifest_file.as_str());
        writer.write_str("PASSURL", self.passurl.as_str());
        writer.write_str("SIGNINURL", self.sign_in_url.as_str());
        writer.write_str("SIGNUPURL", self.sign_up_url.as_str());
        writer.write_str("REGISTERURL", self.register_url.as_str());
        writer.write_str("CRASHLOGURL", self.crash_log_url.as_str());
        writer.write_str("LOCALE", self.locale.as_str());
        writer.write_bool("TRACK_DSK_USAGE", self.track_disk_usage);
        let r = writer.into_inner();
        proof {
            assert(r@ =~= spec_boot_cfg(*self));
        }
        r
    }
}

// ---------------------------------------------------------------------------
// Tokens in configured paths
// ---------------------------------------------------------------------------

pub open spec fn is_lower_char(c: char) -> bool {
    97 <= (c as u32) && (c as u32) <= 122
}

fn is_lower(c: char) -> (r: bool)
    ensures
        r == is_lower_char(c),
{
    let v: u32 = c as u32;
    97 <= v && v <= 122
}

/// The length of the leading run of lowercase letters.
pub open spec fn lower_run(s: Seq<char>) -> int
    decreases s.len(),
{
    if s.len() > 0 && is_lower_char(s[0]) {
        1 + lower_run(s.skip(1))
    } else {
        0
    }
}

proof fn lemma_lower_run_bound(s: Seq<char>)
    ensures
        0 <= lower_run(s) <= s.len(),
    decreases s.len(),
{
    if s.len() > 0 && is_lower_char(s[0]) {
        lemma_lower_run_bound(s.skip(1));
    }
}

/// A leading all-lowercase block of length `k` followed by a non-letter
/// (or the end) pins the run down.
proof fn lemma_lower_run_exact(s: Seq<char>, k: int)
    requires
        0 <= k <= s.len(),
        forall|i: int| 0 <= i < k ==> is_lower_char(#[trigger] s[i]),
        k < s.len() ==> !is_lower_char(s[k]),
    ensures
        lower_run(s) == k,
    decreases k + 1,
{
    if s.len() == 0 {
    } else if k == 0 {
    } else {
        assert(is_lower_char(s[0]));
        assert(forall|i: int| 0 <= i < s.skip(1).len() ==> s.skip(1)[i] == s[i + 1]);
        lemma_lower_run_exact(s.skip(1), k - 1);
    }
}

/// A `{%name}` token with a non-empty lowercase name starts here.
pub open spec fn token_at(s: Seq<char>) -> bool {
    &&& s.len() >= 2
    &&& s[0] == '{'
    &&& s[1] == '%'
    &&& lower_run(s.skip(2)) >= 1
    &&& 2 + lower_run(s.skip(2)) < s.len()
    &&& s[2 + lower_run(s.skip(2))] == '}'
}

/// The input with its leftmost `{%name}` token replaced: `{%installpath}`
/// by the install path, any other recognized name by nothing.  Only that
/// one match is rewritten; everything after it — further tokens included —
/// and an input without any match are left as they stand.
pub open spec fn resolve_spec(s: Seq<char>, install: Seq<char>) -> Seq<char>
    decreases s.len(),
{
    if s.len() == 0 {
        Seq::<char>::empty()
    } else if token_at(s) {
        let n = lower_run(s.skip(2));
        (if s.subrange(2, 2 + n) == "installpath"@ {
            install
        } else {
            Seq::<char>::empty()
        }) + s.skip(3 + n)
    } else {
        seq![s[0]] + resolve_spec(s.skip(1), install)
    }
}

/// The replacement context of configured paths: the install directory.
pub struct Token {
    /// What `{%installpath}` resolves to
    pub install_path: String,
}

impl Token {
    /// Resolve the leftmost `{%name}` token in the input against this
    /// context, leaving the rest of the input untouched.
    pub fn resolve(self, input: &str) -> (r: String)
        ensures
            r@ == resolve_spec(input@, self.install_path@),
    {
        let len = input.unicode_len();
        let mut out = String::new();
        let mut i: usize = 0;
        proof {
            assert(input@.skip(0) =~= input@);
            assert(out@ + resolve_spec(input@, self.install_path@) =~= resolve_spec(
                input@,
                self.install_path@,
            ));
        }
        while i < len
            invariant
                0 <= i <= len,
                len == input@.len(),
                resolve_spec(input@, self.install_path@) == out@ + resolve_spec(
                    input@.skip(i as int),
                    self.install_path@,
                ),
            decreases len - i,
        {
            let ghost rem = input@.skip(i as int);
            let c = input.get_char(i);
            proof {
                assert(rem[0] == input@[i as int]);
            }
            let mut tok = false;
            let mut run_end: usize = i;
            if c == '{' && i + 1 < len && input.get_char(i + 1) == '%' {
                // scan the lowercase run after the marker
                let mut j: usize = i + 2;
                while j < len && is_lower(input.get_char(j))
                    invariant
                        i + 2 <= j <= len,
                        len == input@.len(),
                        forall|m: int| i + 2 <= m < j ==> is_lower_char(#[trigger] input@[m]),
                    decreases len - j,
                {
                    j = j + 1;
                }
                proof {
                    assert forall|m: int| 0 <= m < j - (i + 2) implies is_lower_char(
                        #[trigger] rem.skip(2)[m],
                    ) by {
                        assert(rem.skip(2)[m] == input@[i + 2 + m]);
                    }
                    if j < len {
                        assert(rem.skip(2)[j - (i + 2)] == input@[j as int]);
                    }
                    lemma_lower_run_exact(rem.skip(2), j - (i + 2));
                }
                if j > i + 2 && j < len && input.get_char(j) == '}' {
                    tok = true;
                    run_end = j;
                    proof {
                        assert(rem[2 + lower_run(rem.skip(2))] == input@[j as int]);
                        assert(token_at(rem));
                    }
                }
            }
            if tok {
                let name = input.substring_char(i + 2, run_end);
                proof {
                    assert(name@ =~= rem.subrange(2, 2 + lower_run(rem.skip(2))));
                    assert(rem.skip(3 + lower_run(rem.skip(2))) =~= input@.skip(
                        run_end + 1,
                    ));
                }
                if str_eq(name, "installpath") {
                    out.append(self.install_path.as_str());
                }
                // Only the leftmost match is rewritten: the rest of the
                // input is kept verbatim.
                let rest = input.substring_char(run_end + 1, len);
                out.append(rest);
                proof {
                    assert(rest@ =~= input@.skip(run_end + 1));
                }
                return out;
            } else {
                proof {
                    assert(!token_at(rem)) by {
                        if token_at(rem) {
                            assert(rem[0] == '{');
                            assert(rem[1] == '%');
                            assert(input@[i + 1] == '%');
                            assert(is_lower_char(rem.skip(2)[0]));
                            assert(rem.skip(2)[0] == input@[i + 2]);
                            lemma_lower_run_bound(rem.skip(2));
                        }
                    }
                    assert(rem.skip(1) =~= input@.skip(i + 1));
                }
                let piece = input.substring_char(i, i + 1);
                out.append(piece);
                proof {
                    assert(piece@ =~= seq![rem[0]]);
                }
                i = i + 1;
            }
        }
        proof {
            assert(input@.skip(len as int) =~= Seq::<char>::empty());
        }
        out
    }
}

} // verus!
