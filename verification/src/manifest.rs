//! Manifest data types and the two-section manifest text format.
//!
//! A manifest is the authoritative remote state of one logical file set.
//! Its text form has a `[version]` section holding one version line
//! (`version,hash,name`) and a `[files]` section holding one line per file
//! (`path,size,hash,compressed-size,compressed-hash,line-hash`).  The
//! parsed manifest is read-only: an ordered mapping from path to file
//! entry plus the version header.

use vstd::prelude::*;

use crate::assoc::{
    assoc_get, assoc_insert, assoc_view, entries_sorted, insert_all, spec_find, spec_insert,
};
use crate::md5sum::{md5_hex, Md5Sum};
use crate::text::{
    all_digits, all_hex_digits, dec_val, hex_val, lemma_first_occurrence, logical_line,
    logical_lines, no_char, parse_dec_u32, spec_split, split_once_str, split_str, str_eq,
};

verus! {

/// A section of the manifest text.
#[derive(Debug, Copy, Clone, PartialEq, Eq, Structural)]
pub enum Section {
    /// The `[version]` section
    Version,
    /// The `[files]` section
    Files,
}

/// The header line that opens a section.
pub open spec fn section_header(s: Section) -> Seq<char> {
    match s {
        Section::Files => "[files]"@,
        Section::Version => "[version]"@,
    }
}

impl Section {
    /// The header line that opens this section.
    pub fn as_header(&self) -> (r: &'static str)
        ensures
            r@ == section_header(*self),
    {
        match self {
            Self::Files => "[files]",
            Self::Version => "[version]",
        }
    }
}

/// The line in the `[version]` section.
#[derive(Debug, Clone, PartialEq, Eq)]
pub struct VersionLine {
    /// The version of this manifest
    pub version: u32,
    /// The hash carried next to the version number
    pub hash: Md5Sum,
    /// The name of this manifest
    pub name: String,
}

/// One line of the `[files]` section: what the manifest claims about one
/// file.
#[derive(Debug, Clone, Copy, PartialEq, Eq, Structural)]
pub struct FileLine {
    /// The size of the (uncompressed) file
    pub filesize: u32,
    /// The hash of the (uncompressed) file
    pub hash: Md5Sum,
    /// The size of the compressed stream
    pub compressed_size: u32,
    /// The hash of the compressed stream
    pub compressed_hash: Md5Sum,
    /// The hash carried at the end of the line
    pub line_hash: Md5Sum,
}

/// The relative URL suffix under which the file's compressed stream is
/// published: the first two hex digits of its hash as directories, then
/// the full hash with the compressed-stream suffix.
pub open spec fn spec_to_path(f: FileLine) -> Seq<char> {
    let h = md5_hex(f.hash);
    h.take(1) + "/"@ + h.subrange(1, 2) + "/"@ + h + ".sd0"@
}

impl FileLine {
    /// The relative URL suffix for this file's compressed stream.
    pub fn to_path(&self) -> (r: String)
        ensures
            r@ == spec_to_path(*self),
    {
        let hx = self.hash.to_hex();
        let mut r = hx.substring_char(0, 1).to_owned();
        r.append("/");
        let c2 = hx.substring_char(1, 2);
        r.append(c2);
        r.append("/");
        r.append(hx.as_str());
        r.append(".sd0");
        proof {
            crate::md5sum::lemma_md5_hex_wf(self.hash);
            assert(r@ =~= spec_to_path(*self));
        }
        r
    }
}

/// A manifest file in-memory: the version line and the ordered mapping
/// from path to file line.
#[derive(Debug, Clone)]
pub struct Manifest {
    /// The parsed version line
    pub version: VersionLine,
    /// The parsed, sorted list of files
    pub files: Vec<(String, FileLine)>,
}

impl Manifest {
    /// The abstract contents of the file mapping.
    pub open spec fn files_view(&self) -> Seq<(Seq<char>, FileLine)> {
        assoc_view(self.files@)
    }

    /// A manifest is well-formed when its files are strictly sorted by
    /// path.
    pub open spec fn wf(&self) -> bool {
        entries_sorted(self.files_view())
    }

    /// Look up a file's entry by its path, if the manifest lists it.
    pub fn get(&self, path: &str) -> (r: Option<&FileLine>)
        ensures
            match r {
                Some(f) => spec_find(self.files_view(), path@) == Some(*f),
                None => spec_find(self.files_view(), path@) == None::<FileLine>,
            },
    {
        assoc_get(&self.files, path)
    }

    /// The number of listed files.
    pub fn file_count(&self) -> (n: usize)
        ensures
            n == self.files_view().len(),
    {
        self.files.len()
    }

    /// The path and entry at this position of the path-ordered file list.
    pub fn file_at(&self, i: usize) -> (r: (&String, &FileLine))
        requires
            i < self.files_view().len(),
        ensures
            (r.0@, *r.1) == self.files_view()[i as int],
    {
        (&self.files[i].0, &self.files[i].1)
    }
}

/// An error from parsing a manifest.
#[derive(Debug, Clone, PartialEq, Eq)]
pub enum ManifestError {
    /// Unexpected end of input where a section header was expected
    MissingHeader(Section),
    /// Expected a section header but found this line instead
    ExpectedHeader(Section, String),
    /// Unexpected end of input where the version line was expected
    MissingVersionLine,
    /// The line at this index (counting from zero) could not be parsed
    MalformedLine(usize),
}

// ---------------------------------------------------------------------------
// The grammar, stated over character sequences
// ---------------------------------------------------------------------------

/// `l` reads as a version line for `v`, with the first comma at `i`:
/// the version number, the hash, and the rest of the line as the name.
pub open spec fn is_version_line_at(l: Seq<char>, i: int, v: VersionLine) -> bool {
    let rest = l.skip(i + 1);
    &&& 0 < i < l.len()
    &&& l[i] == ','
    &&& no_char(l.take(i), ',')
    &&& all_digits(l.take(i))
    &&& dec_val(l.take(i)) == v.version
    &&& rest.len() >= 33
    &&& all_hex_digits(rest.take(32))
    &&& hex_val(rest.take(16)) == v.hash.hi
    &&& hex_val(rest.subrange(16, 32)) == v.hash.lo
    &&& rest[32] == ','
    &&& v.name@ == rest.skip(33)
}

/// `l` reads as a version line for `v`.
pub open spec fn is_version_line(l: Seq<char>, v: VersionLine) -> bool {
    exists|i: int| #[trigger] is_version_line_at(l, i, v)
}

/// `l` reads as a file line for path `k` and entry `f`: six comma-counted
/// fields holding the path, both sizes and all three hashes.
pub open spec fn is_file_line(l: Seq<char>, k: Seq<char>, f: FileLine) -> bool {
    let parts = spec_split(l, ',');
    &&& parts.len() == 6
    &&& parts[0] == k
    &&& parts[1].len() > 0 && all_digits(parts[1]) && dec_val(parts[1]) == f.filesize
    &&& parts[2].len() == 32 && all_hex_digits(parts[2]) && hex_val(parts[2].take(16)) == f.hash.hi
        && hex_val(parts[2].skip(16)) == f.hash.lo
    &&& parts[3].len() > 0 && all_digits(parts[3]) && dec_val(parts[3]) == f.compressed_size
    &&& parts[4].len() == 32 && all_hex_digits(parts[4]) && hex_val(parts[4].take(16))
        == f.compressed_hash.hi && hex_val(parts[4].skip(16)) == f.compressed_hash.lo
    &&& parts[5].len() == 32 && all_hex_digits(parts[5]) && hex_val(parts[5].take(16))
        == f.line_hash.hi && hex_val(parts[5].skip(16)) == f.line_hash.lo
}

/// The file lines of the text, from the fourth logical line on, read as
/// exactly these path/entry pairs.
pub open spec fn files_match(lines: Seq<Seq<char>>, entries: Seq<(Seq<char>, FileLine)>) -> bool {
    &&& entries.len() + 3 == lines.len()
    &&& forall|i: int|
        0 <= i < entries.len() ==> is_file_line(
            lines[3 + i],
            #[trigger] entries[i].0,
            entries[i].1,
        )
}

// ---------------------------------------------------------------------------
// Parsing
// ---------------------------------------------------------------------------

/// Parse one version line.  Succeeds exactly when the line reads as a
/// version line.
fn parse_version_line(s: &str) -> (r: Option<VersionLine>)
    ensures
        match r {
            Some(v) => is_version_line(s@, v),
            None => forall|v: VersionLine| !is_version_line(s@, v),
        },
{
    let pair = match split_once_str(s, ',') {
        Some(p) => p,
        None => {
            proof {
                assert forall|v: VersionLine| !is_version_line(s@, v) by {
                    if is_version_line(s@, v) {
                        let i = choose|i: int| is_version_line_at(s@, i, v);
                        assert(s@[i] == ',');
                    }
                }
            }
            return None;
        },
    };
    let (pre, post) = pair;
    let ghost cut = pre@.len() as int;
    proof {
        assert forall|v: VersionLine, i: int| is_version_line_at(s@, i, v) implies i == cut by {
            lemma_first_occurrence(s@, pre@, post@, ',', i);
        }
        assert(s@.take(cut) =~= pre@);
        assert(s@.skip(cut + 1) =~= post@);
    }
    let version = match parse_dec_u32(pre.as_str()) {
        Some(v) => v,
        None => {
            proof {
                assert forall|v: VersionLine| !is_version_line(s@, v) by {
                    if is_version_line(s@, v) {
                        let i = choose|i: int| is_version_line_at(s@, i, v);
                    }
                }
            }
            return None;
        },
    };
    let post_str = post.as_str();
    let post_len = post_str.unicode_len();
    if post_len < 33 {
        proof {
            assert forall|v: VersionLine| !is_version_line(s@, v) by {
                if is_version_line(s@, v) {
                    let i = choose|i: int| is_version_line_at(s@, i, v);
                }
            }
        }
        return None;
    }
    let hash_str = post_str.substring_char(0, 32);
    proof {
        assert(hash_str@ =~= post@.take(32));
        assert(hash_str@.take(16) =~= post@.take(16));
        assert(hash_str@.skip(16) =~= post@.subrange(16, 32));
    }
    let hash = match Md5Sum::parse(hash_str) {
        Some(h) => h,
        None => {
            proof {
                assert forall|v: VersionLine| !is_version_line(s@, v) by {
                    if is_version_line(s@, v) {
                        let i = choose|i: int| is_version_line_at(s@, i, v);
                        assert(post@.take(32) =~= s@.skip(i + 1).take(32));
                    }
                }
            }
            return None;
        },
    };
    if post_str.get_char(32) != ',' {
        proof {
            assert forall|v: VersionLine| !is_version_line(s@, v) by {
                if is_version_line(s@, v) {
                    let i = choose|i: int| is_version_line_at(s@, i, v);
                }
            }
        }
        return None;
    }
    let name = post_str.substring_char(33, post_len).to_owned();
    let v = VersionLine { version, hash, name };
    proof {
        assert(name@ =~= post@.skip(33));
        assert(is_version_line_at(s@, cut, v));
    }
    Some(v)
}

/// Parse one file line.  Succeeds exactly when the line reads as a file
/// line, and then yields its path and entry.
fn parse_file_line(s: &str) -> (r: Option<(String, FileLine)>)
    ensures
        match r {
            Some(p) => is_file_line(s@, p.0@, p.1),
            None => forall|k: Seq<char>, f: FileLine| !is_file_line(s@, k, f),
        },
{
    let parts = split_str(s, ',');
    let ghost sp = spec_split(s@, ',');
    proof {
        assert(forall|i: int|
            0 <= i < parts@.len() ==> #[trigger] parts@[i]@ == parts@.map_values(|p: String| p@)[
                i
            ]);
    }
    if parts.len() != 6 {
        return None;
    }
    let filesize = match parse_dec_u32(parts[1].as_str()) {
        Some(v) => v,
        None => {
            return None;
        },
    };
    let hash = match Md5Sum::parse(parts[2].as_str()) {
        Some(h) => h,
        None => {
            return None;
        },
    };
    let compressed_size = match parse_dec_u32(parts[3].as_str()) {
        Some(v) => v,
        None => {
            return None;
        },
    };
    let compressed_hash = match Md5Sum::parse(parts[4].as_str()) {
        Some(h) => h,
        None => {
            return None;
        },
    };
    let line_hash = match Md5Sum::parse(parts[5].as_str()) {
        Some(h) => h,
        None => {
            return None;
        },
    };
    let key = parts[0].clone();
    let f = FileLine { filesize, hash, compressed_size, compressed_hash, line_hash };
    Some((key, f))
}


/// Parse a manifest text: a `[version]` header, the version line, a
/// `[files]` header, then one file line per remaining line.  Each way the
/// text can fail to have that shape is reported as its own error.
pub fn parse_manifest(text: &str) -> (r: Result<Manifest, ManifestError>)
    ensures
        ({
            let lines = logical_lines(text@);
            match r {
                Ok(m) => {
                    &&& m.wf()
                    &&& lines.len() >= 3
                    &&& lines[0] == section_header(Section::Version)
                    &&& is_version_line(lines[1], m.version)
                    &&& lines[2] == section_header(Section::Files)
                    &&& exists|entries: Seq<(Seq<char>, FileLine)>|
                        #[trigger] files_match(lines, entries) && m.files_view() == insert_all(
                            entries,
                        )
                },
                Err(e) => match e {
                    ManifestError::MissingHeader(sec) => (sec == Section::Version && lines.len()
                        == 0) || (sec == Section::Files && lines.len() == 2 && lines[0]
                        == section_header(Section::Version)),
                    ManifestError::ExpectedHeader(sec, got) => (sec == Section::Version
                        && lines.len() >= 1 && lines[0] != section_header(Section::Version)
                        && got@ == lines[0]) || (sec == Section::Files && lines.len() >= 3
                        && lines[0] == section_header(Section::Version) && lines[2]
                        != section_header(Section::Files) && got@ == lines[2]),
                    ManifestError::MissingVersionLine => lines.len() == 1 && lines[0]
                        == section_header(Section::Version),
                    ManifestError::MalformedLine(i) => (i == 1 && lines.len() >= 2 && (forall|
                        v: VersionLine,
                    | !is_version_line(lines[1], v))) || (3 <= i < lines.len() && (forall|
                        k: Seq<char>,
                        f: FileLine,
                    | !is_file_line(lines[i as int], k, f))),
                },
            }
        }),
{
    let ghost lines = logical_lines(text@);
    let pieces = split_str(text, '\n');
    let np = pieces.len();
    let ghost p = pieces@.map_values(|x: String| x@);
    let ghost q = Seq::new(
        p.len(),
        |i: int|
            if i < p.len() - 1 && p[i].len() > 0 && p[i].last() == '\r' {
                p[i].drop_last()
            } else {
                p[i]
            },
    );
    let mut n = np;
    if pieces[np - 1].as_str().unicode_len() == 0 {
        n = np - 1;
        proof {
            assert(q.last() == p[np - 1]);
            assert(q.last() =~= Seq::<char>::empty());
            assert(lines == q.drop_last());
        }
    } else {
        proof {
            assert(q.last() == p[np - 1]);
            assert(q.last() != Seq::<char>::empty());
            assert(lines == q);
        }
    }
    proof {
        assert(lines.len() == n);
        assert(forall|i: int| 0 <= i < n ==> lines[i] == q[i]);
    }
    if n == 0 {
        return Err(ManifestError::MissingHeader(Section::Version));
    }
    let line0 = logical_line(&pieces, 0);
    proof {
        assert(line0@ == lines[0]);
    }
    if !str_eq(line0, "[version]") {
        return Err(ManifestError::ExpectedHeader(Section::Version, line0.to_owned()));
    }
    if n < 2 {
        return Err(ManifestError::MissingVersionLine);
    }
    let line1 = logical_line(&pieces, 1);
    proof {
        assert(line1@ == lines[1]);
    }
    let version = match parse_version_line(line1) {
        Some(v) => v,
        None => {
            return Err(ManifestError::MalformedLine(1));
        },
    };
    if n < 3 {
        return Err(ManifestError::MissingHeader(Section::Files));
    }
    let line2 = logical_line(&pieces, 2);
    proof {
        assert(line2@ == lines[2]);
    }
    if !str_eq(line2, "[files]") {
        return Err(ManifestError::ExpectedHeader(Section::Files, line2.to_owned()));
    }
    let mut files: Vec<(String, FileLine)> = Vec::new();
    let ghost mut parsed: Seq<(Seq<char>, FileLine)> = Seq::empty();
    proof {
        assert(assoc_view(files@) =~= Seq::<(Seq<char>, FileLine)>::empty());
        assert(assoc_view(files@) == insert_all(parsed));
    }
    let mut j: usize = 3;
    while j < n
        invariant
            3 <= j <= n,
            np == pieces@.len(),
            n <= np,
            p == pieces@.map_values(|x: String| x@),
            lines == logical_lines(text@),
            lines.len() == n,
            forall|i: int|
                0 <= i < n ==> lines[i] == (if i < p.len() - 1 && p[i].len() > 0 && p[i].last()
                    == '\r' {
                    p[i].drop_last()
                } else {
                    p[i]
                }),
            entries_sorted(assoc_view(files@)),
            assoc_view(files@) == insert_all(parsed),
            parsed.len() == j - 3,
            forall|i: int|
                0 <= i < parsed.len() ==> is_file_line(
                    lines[3 + i],
                    #[trigger] parsed[i].0,
                    parsed[i].1,
                ),
        decreases n - j,
    {
        let linej = logical_line(&pieces, j);
        proof {
            assert(linej@ == lines[j as int]);
        }
        match parse_file_line(linej) {
            Some(kf) => {
                let (key, fl) = kf;
                let ghost kv = key@;
                assoc_insert(&mut files, key, fl);
                proof {
                    assert(parsed.push((kv, fl)).drop_last() =~= parsed);
                    parsed = parsed.push((kv, fl));
                }
            },
            None => {
                return Err(ManifestError::MalformedLine(j));
            },
        }
        j = j + 1;
    }
    let m = Manifest { version, files };
    proof {
        assert(files_match(lines, parsed));
        assert(m.files_view() == insert_all(parsed));
    }
    Ok(m)
}

} // verus!
