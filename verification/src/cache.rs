//! The persistent per-file metadata cache.
//!
//! The cache maps a normalized key (the area prefix plus the file path,
//! with forward slashes turned into backslashes) to the last known
//! modification time, size and content hash of that file.  It is held as a
//! list of entries strictly sorted by key, mirroring the key order of the
//! persisted form: one line per entry, `key,mtime,size,hash`, sorted by
//! key, with the mtime field empty when the time is unknown.

use vstd::prelude::*;

use crate::assoc::{
    assoc_get, assoc_insert, assoc_view, entries_sorted, insert_all, lemma_insert_all_sorted_id,
    spec_find, spec_insert,
};
use crate::md5sum::{md5_hex, lemma_md5_hex_wf, lemma_md5_hex_roundtrip, Md5Sum};
use crate::text::{
    all_digits, all_hex_digits, backslashify, dec_pad, dec_seq, dec_val, first_occ, hex_val,
    is_digit_char, is_hex_digit_char, lemma_dec_seq_digits, lemma_dec_val_dec_pad,
    lemma_dec_val_dec_seq, lemma_digits_no_char, lemma_dec_pad_digits, lemma_first_occ_at,
    lemma_first_occ_decomposition, lemma_first_occ_none, lemma_hex_digits_no_char,
    lemma_split_rec_no_sep, lemma_split_rec_step, logical_line, logical_lines, no_char,
    normalize_slashes, parse_dec_u32, parse_dec_u64, pow10, spec_split, split_rec, split_str,
};

verus! {

/// One entry in the cache: what was last known about a file.
///
/// `mtime` is the file's modification time in integer microseconds since
/// the epoch; it is absent when an older or malformed cache line did not
/// carry a usable time, and always present for freshly recorded entries.
#[derive(Clone, Copy, Debug)]
pub struct CacheEntry {
    /// The time the file was written, in microseconds since the epoch
    pub mtime: Option<u64>,
    /// The (uncompressed) size of the file
    pub size: u32,
    /// The (uncompressed) hash of the file
    pub hash: Md5Sum,
}

/// A cache key: a string whose forward slashes have been normalized to
/// backslashes, so that keys built from either slash form collide.
#[derive(Debug)]
pub struct CacheKey(String);

impl View for CacheKey {
    type V = Seq<char>;

    closed spec fn view(&self) -> Seq<char> {
        self.0@
    }
}

impl CacheKey {
    /// Build a key from a raw string, normalizing slashes.
    pub fn new(v: &str) -> (k: CacheKey)
        ensures
            k@ == backslashify(v@),
    {
        CacheKey(normalize_slashes(v))
    }

    /// Wrap a string that is stored as it stands, as when reading keys
    /// back from the persisted cache.
    fn raw(v: String) -> (k: CacheKey)
        ensures
            k@ == v@,
    {
        CacheKey(v)
    }
}

/// The persistent metadata cache: a mapping from key to entry, held
/// strictly sorted by key.
#[derive(Debug)]
pub struct Cache {
    entries: Vec<(String, CacheEntry)>,
}

impl View for Cache {
    type V = Seq<(Seq<char>, CacheEntry)>;

    closed spec fn view(&self) -> Seq<(Seq<char>, CacheEntry)> {
        assoc_view(self.entries@)
    }
}

// ---------------------------------------------------------------------------
// The persisted form
// ---------------------------------------------------------------------------

/// The text of the mtime field: seconds, a dot, and exactly six fractional
/// digits; empty when the time is unknown.
pub open spec fn mtime_field(m: Option<u64>) -> Seq<char> {
    match m {
        None => Seq::<char>::empty(),
        Some(t) => dec_seq((t / 1000000) as nat) + seq!['.'] + dec_pad((t % 1000000) as nat, 6),
    }
}

/// One persisted cache line, without its newline:
/// `key,mtime,size,hash`.
pub open spec fn entry_line(k: Seq<char>, e: CacheEntry) -> Seq<char> {
    k + seq![','] + mtime_field(e.mtime) + seq![','] + dec_seq(e.size as nat) + seq![',']
        + md5_hex(e.hash)
}

/// The whole persisted text: one newline-terminated line per entry, in
/// entry (that is, key) order.
pub open spec fn cache_text(s: Seq<(Seq<char>, CacheEntry)>) -> Seq<char>
    decreases s.len(),
{
    if s.len() == 0 {
        Seq::<char>::empty()
    } else {
        entry_line(s[0].0, s[0].1) + seq!['\n'] + cache_text(s.skip(1))
    }
}

/// An entry list that the persisted form can carry faithfully: sorted, and
/// no key contains a field or line separator.
pub open spec fn storable(s: Seq<(Seq<char>, CacheEntry)>) -> bool {
    entries_sorted(s) && (forall|i: int|
        0 <= i < s.len() ==> no_char(#[trigger] s[i].0, ',') && no_char(s[i].0, '\n'))
}

proof fn lemma_mtime_field_chars(m: Option<u64>)
    ensures
        no_char(mtime_field(m), ','),
        no_char(mtime_field(m), '\n'),
{
    match m {
        None => {},
        Some(t) => {
            let a = dec_seq((t / 1000000) as nat);
            let b = dec_pad((t % 1000000) as nat, 6);
            lemma_dec_seq_digits((t / 1000000) as nat);
            lemma_dec_pad_digits((t % 1000000) as nat, 6);
            let f = mtime_field(m);
            assert forall|i: int| 0 <= i < f.len() implies #[trigger] f[i] != ',' && f[i] != '\n'
                by {
                if i < a.len() {
                    assert(f[i] == a[i]);
                    assert(is_digit_char(a[i]));
                } else if i == a.len() {
                    assert(f[i] == '.');
                } else {
                    assert(f[i] == b[i - a.len() - 1]);
                    assert(is_digit_char(b[i - a.len() - 1]));
                }
            }
        },
    }
}

/// Splitting a persisted line at the commas yields exactly its four
/// fields, and the numeric fields parse back to the entry's values.
proof fn lemma_line_of_entry(l: Seq<char>, k: Seq<char>, e: CacheEntry)
    requires
        no_char(k, ','),
        l == entry_line(k, e),
    ensures
        spec_split(l, ',') == seq![
            k,
            mtime_field(e.mtime),
            dec_seq(e.size as nat),
            md5_hex(e.hash),
        ],
        spec_split(l, ',').len() == 4,
        dec_seq(e.size as nat).len() > 0,
        all_digits(dec_seq(e.size as nat)),
        dec_val(dec_seq(e.size as nat)) == e.size,
        md5_hex(e.hash).len() == 32,
        all_hex_digits(md5_hex(e.hash)),
        hex_val(md5_hex(e.hash).take(16)) == e.hash.hi,
        hex_val(md5_hex(e.hash).skip(16)) == e.hash.lo,
        l.len() > 0,
        is_hex_digit_char(l.last()),
        l.last() != '\r',
{
    let mt = mtime_field(e.mtime);
    let sz = dec_seq(e.size as nat);
    let hx = md5_hex(e.hash);
    lemma_mtime_field_chars(e.mtime);
    lemma_dec_seq_digits(e.size as nat);
    lemma_dec_val_dec_seq(e.size as nat);
    lemma_md5_hex_wf(e.hash);
    lemma_md5_hex_roundtrip(e.hash);
    lemma_digits_no_char(sz, ',');
    lemma_hex_digits_no_char(hx, ',');
    let r1 = mt + seq![','] + (sz + seq![','] + hx);
    let r2 = sz + seq![','] + hx;
    assert(l =~= k + seq![','] + r1);
    lemma_split_rec_step(k, r1, ',', Seq::<char>::empty());
    assert(spec_split(l, ',') == seq![k] + spec_split(r1, ','));
    assert(r1 =~= mt + seq![','] + r2);
    lemma_split_rec_step(mt, r2, ',', Seq::<char>::empty());
    assert(spec_split(r1, ',') == seq![mt] + spec_split(r2, ','));
    lemma_split_rec_step(sz, hx, ',', Seq::<char>::empty());
    assert(spec_split(r2, ',') == seq![sz] + split_rec(hx, ',', Seq::<char>::empty()));
    lemma_split_rec_no_sep(hx, ',', Seq::<char>::empty());
    assert(Seq::<char>::empty() + hx =~= hx);
    assert(spec_split(l, ',') =~= seq![k, mt, sz, hx]);
    assert(l.last() == hx.last());
    assert(is_hex_digit_char(hx[31]));
}

/// A persisted line contains no newline, so the persisted text splits back
/// into the lines it was built from.
proof fn lemma_entry_line_no_newline(k: Seq<char>, e: CacheEntry)
    requires
        no_char(k, '\n'),
    ensures
        no_char(entry_line(k, e), '\n'),
{
    let mt = mtime_field(e.mtime);
    let sz = dec_seq(e.size as nat);
    let hx = md5_hex(e.hash);
    lemma_mtime_field_chars(e.mtime);
    lemma_dec_seq_digits(e.size as nat);
    lemma_md5_hex_wf(e.hash);
    lemma_digits_no_char(sz, '\n');
    lemma_hex_digits_no_char(hx, '\n');
    let l = entry_line(k, e);
    assert forall|i: int| 0 <= i < l.len() implies #[trigger] l[i] != '\n' by {
        let p1 = k.len() as int;
        let p2 = p1 + 1 + mt.len();
        let p3 = p2 + 1 + sz.len();
        if i < p1 {
            assert(l[i] == k[i]);
        } else if i == p1 {
            assert(l[i] == ',');
        } else if i < p2 {
            assert(l[i] == mt[i - p1 - 1]);
        } else if i == p2 {
            assert(l[i] == ',');
        } else if i < p3 {
            assert(l[i] == sz[i - p2 - 1]);
        } else if i == p3 {
            assert(l[i] == ',');
        } else {
            assert(l[i] == hx[i - p3 - 1]);
        }
    }
}

/// Appending one entry appends one line to the persisted text.
proof fn lemma_cache_text_push(s: Seq<(Seq<char>, CacheEntry)>, k: Seq<char>, e: CacheEntry)
    ensures
        cache_text(s.push((k, e))) == cache_text(s) + entry_line(k, e) + seq!['\n'],
    decreases s.len(),
{
    let p = s.push((k, e));
    if s.len() == 0 {
        assert(p.skip(1) =~= Seq::<(Seq<char>, CacheEntry)>::empty());
        assert(p[0] == (k, e));
        assert(entry_line(k, e) + seq!['\n'] + cache_text(Seq::<(Seq<char>, CacheEntry)>::empty())
            =~= cache_text(s) + entry_line(k, e) + seq!['\n']);
    } else {
        assert(p[0] == s[0]);
        assert(p.skip(1) =~= s.skip(1).push((k, e)));
        lemma_cache_text_push(s.skip(1), k, e);
        assert(entry_line(p[0].0, p[0].1) + seq!['\n'] + (cache_text(s.skip(1)) + entry_line(k, e)
            + seq!['\n']) =~= cache_text(s) + entry_line(k, e) + seq!['\n']);
    }
}

/// The persisted text of a storable entry list splits at newlines into the
/// entry lines followed by one empty piece.
proof fn lemma_cache_text_lines(s: Seq<(Seq<char>, CacheEntry)>)
    requires
        storable(s),
    ensures
        spec_split(cache_text(s), '\n') == s.map_values(
            |p: (Seq<char>, CacheEntry)| entry_line(p.0, p.1),
        ) + seq![Seq::<char>::empty()],
    decreases s.len(),
{
    if s.len() == 0 {
        assert(spec_split(cache_text(s), '\n') == seq![Seq::<char>::empty()]);
        assert(s.map_values(|p: (Seq<char>, CacheEntry)| entry_line(p.0, p.1)) + seq![
            Seq::<char>::empty(),
        ] =~= seq![Seq::<char>::empty()]);
    } else {
        let l0 = entry_line(s[0].0, s[0].1);
        lemma_entry_line_no_newline(s[0].0, s[0].1);
        assert(cache_text(s) =~= l0 + seq!['\n'] + cache_text(s.skip(1)));
        lemma_split_rec_step(l0, cache_text(s.skip(1)), '\n', Seq::<char>::empty());
        assert(Seq::<char>::empty() + l0 =~= l0);
        assert(storable(s.skip(1))) by {
            assert(forall|m: int| 0 <= m < s.skip(1).len() ==> s.skip(1)[m] == s[m + 1]);
        }
        lemma_cache_text_lines(s.skip(1));
        assert(spec_split(cache_text(s), '\n') == seq![l0] + (s.skip(1).map_values(
            |p: (Seq<char>, CacheEntry)| entry_line(p.0, p.1),
        ) + seq![Seq::<char>::empty()]));
        assert(seq![l0] + (s.skip(1).map_values(|p: (Seq<char>, CacheEntry)| entry_line(p.0, p.1))
            + seq![Seq::<char>::empty()]) =~= s.map_values(
            |p: (Seq<char>, CacheEntry)| entry_line(p.0, p.1),
        ) + seq![Seq::<char>::empty()]);
    }
}


/// The shape of a present mtime field: the seconds numeral, a dot, six
/// fractional digits.
proof fn lemma_mtime_structure(s: Seq<char>, t: u64)
    requires
        s == mtime_field(Some(t)),
    ensures
        ({
            let a = dec_seq((t / 1000000) as nat);
            let b = dec_pad((t % 1000000) as nat, 6);
            &&& s.len() == a.len() + 7
            &&& s[a.len() as int] == '.'
            &&& s.take(a.len() as int) == a
            &&& s.skip(a.len() as int + 1) == b
            &&& a.len() > 0
            &&& all_digits(a)
            &&& dec_val(a) == t / 1000000
            &&& b.len() == 6
            &&& all_digits(b)
            &&& dec_val(b) == t % 1000000
        }),
{
    let a = dec_seq((t / 1000000) as nat);
    let b = dec_pad((t % 1000000) as nat, 6);
    lemma_dec_seq_digits((t / 1000000) as nat);
    lemma_dec_val_dec_seq((t / 1000000) as nat);
    lemma_dec_pad_digits((t % 1000000) as nat, 6);
    assert(pow10(6) == 1000000) by {
        reveal_with_fuel(pow10, 7);
    }
    lemma_dec_val_dec_pad((t % 1000000) as nat, 6);
    assert(s.take(a.len() as int) =~= a);
    assert(s.skip(a.len() as int + 1) =~= b);
    assert(s[a.len() as int] == '.');
}

/// The time an mtime field reads as, if any: the digits before the first
/// dot as seconds, exactly six digits after it as microseconds.  Anything
/// else — the empty field included — reads as "unknown" rather than as an
/// error, since nothing downstream reads the time.
pub open spec fn mtime_of(f: Seq<char>) -> Option<u64> {
    let i = first_occ(f, '.');
    if i <= 0 || f.len() != i + 7 {
        None
    } else if !all_digits(f.take(i)) || !all_digits(f.skip(i + 1)) {
        None
    } else if dec_val(f.take(i)) * 1000000 + dec_val(f.skip(i + 1)) > u64::MAX {
        None
    } else {
        Some((dec_val(f.take(i)) * 1000000 + dec_val(f.skip(i + 1))) as u64)
    }
}

/// Parse an mtime field.
fn parse_mtime(s: &str) -> (r: Option<u64>)
    ensures
        r == mtime_of(s@),
{
    let len = s.unicode_len();
    let dot = match crate::text::find_char(s, '.') {
        Some(i) => i,
        None => {
            proof {
                lemma_first_occ_none(s@, '.');
            }
            return None;
        },
    };
    proof {
        lemma_first_occ_at(s@, '.', dot as int);
    }
    if len - dot != 7 {
        return None;
    }
    let secs_str = s.substring_char(0, dot);
    let frac_str = s.substring_char(dot + 1, len);
    proof {
        assert(secs_str@ =~= s@.take(dot as int));
        assert(frac_str@ =~= s@.skip(dot + 1));
    }
    let secs = match parse_dec_u64(secs_str) {
        Some(v) => v,
        None => {
            proof {
                // Either the seconds part is empty or not all digits, or
                // its value alone already exceeds the range.
                if dot > 0 && all_digits(s@.take(dot as int)) {
                    assert(dec_val(s@.take(dot as int)) > u64::MAX);
                    assert(dec_val(s@.take(dot as int)) * 1000000 >= dec_val(
                        s@.take(dot as int),
                    ) * 1) by (nonlinear_arith);
                }
            }
            return None;
        },
    };
    let frac = match parse_dec_u64(frac_str) {
        Some(v) => v,
        None => {
            proof {
                if all_digits(s@.skip(dot + 1)) {
                    crate::text::lemma_dec_val_bound(s@.skip(dot + 1));
                    assert(pow10(6) == 1000000) by {
                        reveal_with_fuel(pow10, 7);
                    }
                }
            }
            return None;
        },
    };
    proof {
        crate::text::lemma_dec_val_bound(frac_str@);
        assert(pow10(6) == 1000000) by {
            reveal_with_fuel(pow10, 7);
        }
    }
    if secs > (u64::MAX - frac) / 1000000 {
        proof {
            // The value does not fit: if it did, the quotient test would
            // have passed.
            if secs * 1000000 + frac <= u64::MAX {
                assert(secs <= (u64::MAX - frac) / 1000000) by (nonlinear_arith)
                    requires
                        secs * 1000000 + frac <= u64::MAX,
                        0 <= frac,
                        0 <= secs,
                ;
            }
        }
        return None;
    }
    proof {
        let q = ((u64::MAX - frac) / 1000000) as int;
        assert(q * 1000000 <= u64::MAX - frac) by (nonlinear_arith)
            requires
                q == ((u64::MAX - frac) as int) / 1000000,
                0 <= frac <= u64::MAX,
        ;
        assert(secs * 1000000 <= q * 1000000) by (nonlinear_arith)
            requires
                0 <= secs <= q,
        ;
    }
    let v: u64 = secs * 1000000 + frac;
    Some(v)
}

/// The canonical mtime field written by the serializer reads back as the
/// same time, and the empty field as "unknown".
proof fn lemma_mtime_of_field(m: Option<u64>)
    ensures
        mtime_of(mtime_field(m)) == m,
{
    match m {
        None => {
            assert(first_occ(Seq::<char>::empty(), '.') == -1);
        },
        Some(t) => {
            let f = mtime_field(Some(t));
            let a = dec_seq((t / 1000000) as nat);
            let b = dec_pad((t % 1000000) as nat, 6);
            lemma_mtime_structure(f, t);
            lemma_digits_no_char(a, '.');
            lemma_first_occ_decomposition(f, a, b, '.');
            assert(f.take(a.len() as int) == a);
            assert(f.skip(a.len() as int + 1) == b);
            assert(dec_val(a) * 1000000 + dec_val(b) == t);
        },
    }
}

/// Why a persisted cache file was rejected.
#[derive(Clone, Copy, Debug, PartialEq, Eq, Structural)]
pub enum CacheError {
    /// The line at this index (counting from zero) is not a cache line.
    MalformedLine(usize),
}

/// What one logical line of the persisted text reads as, if anything:
/// the key before the first comma, the tolerated mtime field, then a
/// decimal size and a 32-digit hexadecimal hash.  Fields beyond the
/// fourth are ignored; a line with fewer than four fields, or with a bad
/// size or hash, is malformed.
pub open spec fn spec_cache_line(l: Seq<char>) -> Option<(Seq<char>, CacheEntry)> {
    let parts = spec_split(l, ',');
    if parts.len() < 4 {
        None
    } else if !(parts[2].len() > 0 && all_digits(parts[2]) && dec_val(parts[2]) <= u32::MAX) {
        None
    } else if !(parts[3].len() == 32 && all_hex_digits(parts[3])) {
        None
    } else {
        Some(
            (
                parts[0],
                CacheEntry {
                    mtime: mtime_of(parts[1]),
                    size: dec_val(parts[2]) as u32,
                    hash: Md5Sum {
                        hi: hex_val(parts[3].take(16)) as u64,
                        lo: hex_val(parts[3].skip(16)) as u64,
                    },
                },
            ),
        )
    }
}

/// The entries the logical lines read as, in line order.
pub open spec fn cache_entries_of(lines: Seq<Seq<char>>) -> Seq<(Seq<char>, CacheEntry)> {
    Seq::new(lines.len(), |i: int| spec_cache_line(lines[i]).unwrap())
}

/// A line rendered from an entry reads back as exactly that entry.
proof fn lemma_cache_line_of_entry(k: Seq<char>, e: CacheEntry)
    requires
        no_char(k, ','),
    ensures
        spec_cache_line(entry_line(k, e)) == Some((k, e)),
{
    let l = entry_line(k, e);
    lemma_line_of_entry(l, k, e);
    lemma_mtime_of_field(e.mtime);
    assert(e.hash == Md5Sum { hi: e.hash.hi, lo: e.hash.lo });
    assert(e == CacheEntry { mtime: e.mtime, size: e.size, hash: e.hash });
}

/// The logical lines of a storable list's persisted text are exactly its
/// entry lines, each reading back as its entry.
proof fn lemma_canonical_cache_lines(s: Seq<(Seq<char>, CacheEntry)>)
    requires
        storable(s),
    ensures
        logical_lines(cache_text(s)) == s.map_values(
            |x: (Seq<char>, CacheEntry)| entry_line(x.0, x.1),
        ),
        forall|i: int|
            0 <= i < s.len() ==> spec_cache_line(
                #[trigger] logical_lines(cache_text(s))[i],
            ) == Some((s[i].0, s[i].1)),
{
    lemma_cache_text_lines(s);
    let mapped = s.map_values(|x: (Seq<char>, CacheEntry)| entry_line(x.0, x.1));
    let p = spec_split(cache_text(s), '\n');
    assert(p == mapped + seq![Seq::<char>::empty()]);
    let q = Seq::new(
        p.len(),
        |i: int|
            if i < p.len() - 1 && p[i].len() > 0 && p[i].last() == '\r' {
                p[i].drop_last()
            } else {
                p[i]
            },
    );
    assert forall|i: int| 0 <= i < p.len() implies q[i] == p[i] by {
        if i < p.len() - 1 {
            assert(p[i] == mapped[i]);
            assert(mapped[i] == entry_line(s[i].0, s[i].1));
            lemma_line_of_entry(entry_line(s[i].0, s[i].1), s[i].0, s[i].1);
        }
    }
    assert(q.last() == p[p.len() - 1]);
    assert(q.last() == Seq::<char>::empty());
    assert(logical_lines(cache_text(s)) == q.drop_last());
    assert(logical_lines(cache_text(s)) =~= mapped);
    assert forall|i: int| 0 <= i < s.len() implies spec_cache_line(
        #[trigger] logical_lines(cache_text(s))[i],
    ) == Some((s[i].0, s[i].1)) by {
        assert(logical_lines(cache_text(s))[i] == entry_line(s[i].0, s[i].1));
        lemma_cache_line_of_entry(s[i].0, s[i].1);
    }
}

impl Cache {
    /// A cache is well-formed when its entries are strictly sorted by key.
    pub open spec fn wf(&self) -> bool {
        entries_sorted(self@)
    }

    /// Create a new, empty cache.
    pub fn new() -> (c: Cache)
        ensures
            c@ == Seq::<(Seq<char>, CacheEntry)>::empty(),
            c.wf(),
    {
        let c = Cache { entries: Vec::new() };
        proof {
            assert(c@ =~= Seq::<(Seq<char>, CacheEntry)>::empty());
        }
        c
    }

    /// Look up the entry stored under this key, if any.
    pub fn get(&self, key: &CacheKey) -> (r: Option<&CacheEntry>)
        ensures
            match r {
                Some(e) => spec_find(self@, key@) == Some(*e),
                None => spec_find(self@, key@) == None::<CacheEntry>,
            },
    {
        assoc_get(&self.entries, key.0.as_str())
    }

    /// Insert or overwrite the entry for this key.
    pub fn insert(&mut self, key: CacheKey, value: CacheEntry)
        requires
            old(self).wf(),
        ensures
            final(self)@ == spec_insert(old(self)@, key@, value),
            final(self).wf(),
    {
        let CacheKey(raw_key) = key;
        assoc_insert(&mut self.entries, raw_key, value);
    }

    /// Render all entries, in key order, as the persisted text: one line
    /// per entry, `key,mtime,size,hash`, each terminated by a newline.
    pub fn serialize(&self) -> (r: String)
        ensures
            r@ == cache_text(self@),
    {
        let mut r = String::new();
        let n = self.entries.len();
        let mut i: usize = 0;
        proof {
            assert(self@.take(0) =~= Seq::<(Seq<char>, CacheEntry)>::empty());
            assert(r@ =~= cache_text(self@.take(0)));
        }
        while i < n
            invariant
                0 <= i <= n,
                n == self.entries@.len(),
                self@.len() == n,
                r@ == cache_text(self@.take(i as int)),
                forall|j: int| 0 <= j < self@.len() ==> #[trigger] self@[j] == (
                    self.entries@[j].0@,
                    self.entries@[j].1,
                ),
            decreases n - i,
        {
            let ghost k = self@[i as int].0;
            let ghost e = self@[i as int].1;
            r.append(self.entries[i].0.as_str());
            r.append(",");
            match self.entries[i].1.mtime {
                Some(t) => {
                    let secs = crate::text::u64_to_dec(t / 1000000);
                    r.append(secs.as_str());
                    r.append(".");
                    let frac = crate::text::u64_to_dec_pad(t % 1000000, 6);
                    r.append(frac.as_str());
                },
                None => {},
            }
            r.append(",");
            let szs = crate::text::u64_to_dec(self.entries[i].1.size as u64);
            r.append(szs.as_str());
            r.append(",");
            let hx = self.entries[i].1.hash.to_hex();
            r.append(hx.as_str());
            r.append("\n");
            proof {
                reveal_strlit(",");
                reveal_strlit(".");
                reveal_strlit("\n");
                assert(self@.take(i + 1) =~= self@.take(i as int).push((k, e)));
                lemma_cache_text_push(self@.take(i as int), k, e);
                assert(r@ =~= cache_text(self@.take(i as int)) + entry_line(k, e) + seq!['\n']);
            }
            i = i + 1;
        }
        proof {
            assert(self@.take(n as int) =~= self@);
        }
        r
    }

    /// Parse a persisted cache text.  Every logical line must read as a
    /// cache line — a malformed line is a fatal, reported error naming
    /// the first offending line, never guessed at.  On success the cache
    /// holds the lines' entries overlaid in order, later lines winning
    /// over earlier ones for the same key; in particular, parsing the
    /// text written by [`Cache::serialize`] for any storable entry list
    /// gives back exactly those entries.
    pub fn parse(text: &str) -> (r: Result<Cache, CacheError>)
        ensures
            ({
                let lines = logical_lines(text@);
                match r {
                    Ok(c) => {
                        &&& c.wf()
                        &&& forall|i: int|
                            0 <= i < lines.len() ==> (#[trigger] spec_cache_line(
                                lines[i],
                            )).is_some()
                        &&& c@ == insert_all(cache_entries_of(lines))
                        &&& forall|s: Seq<(Seq<char>, CacheEntry)>|
                            storable(s) && text@ == cache_text(s) ==> c@ == s
                    },
                    Err(e) => e matches CacheError::MalformedLine(i) && {
                        &&& i < lines.len()
                        &&& spec_cache_line(lines[i as int]).is_none()
                        &&& forall|j: int|
                            0 <= j < i ==> (#[trigger] spec_cache_line(lines[j])).is_some()
                    },
                }
            }),
    {
        let ghost lines = logical_lines(text@);
        let pieces = split_str(text, '\n');
        let np = pieces.len();
        let ghost p = pieces@.map_values(|x: String| x@);
        let ghost q = Seq::new(
            p.len(),
            |i: int|
                if i < p.len() - 1 && p[i].len() > 0 && p[i].last() == '\r' {
                    p[i].drop_last()
                } else {
                    p[i]
                },
        );
        let mut n = np;
        if pieces[np - 1].as_str().unicode_len() == 0 {
            n = np - 1;
            proof {
                assert(q.last() == p[np - 1]);
                assert(q.last() =~= Seq::<char>::empty());
                assert(lines == q.drop_last());
            }
        } else {
            proof {
                assert(q.last() == p[np - 1]);
                assert(q.last() != Seq::<char>::empty());
                assert(lines == q);
            }
        }
        proof {
            assert(lines.len() == n);
            assert(forall|i: int| 0 <= i < n ==> lines[i] == q[i]);
        }
        let mut cache = Cache::new();
        let ghost mut parsed: Seq<(Seq<char>, CacheEntry)> = Seq::empty();
        let mut j: usize = 0;
        while j < n
            invariant
                0 <= j <= n,
                np == pieces@.len(),
                n <= np,
                p == pieces@.map_values(|x: String| x@),
                p == spec_split(text@, '\n'),
                lines == logical_lines(text@),
                lines.len() == n,
                forall|i: int|
                    0 <= i < n ==> lines[i] == (if i < p.len() - 1 && p[i].len() > 0
                        && p[i].last() == '\r' {
                        p[i].drop_last()
                    } else {
                        p[i]
                    }),
                cache.wf(),
                cache@ == insert_all(parsed),
                parsed.len() == j,
                forall|i: int|
                    0 <= i < j ==> (#[trigger] spec_cache_line(lines[i])) == Some(parsed[i]),
            decreases n - j,
        {
            let line = logical_line(&pieces, j);
            proof {
                assert(line@ == lines[j as int]);
            }
            let parts = split_str(line, ',');
            let ghost sp = spec_split(line@, ',');
            proof {
                assert(forall|i: int|
                    0 <= i < parts@.len() ==> #[trigger] parts@[i]@ == parts@.map_values(
                        |x: String| x@,
                    )[i]);
            }
            let pn = parts.len();
            if pn < 4 {
                return Err(CacheError::MalformedLine(j));
            }
            let key_string = parts[0].clone();
            let ghost kview = key_string@;
            let mt = parse_mtime(parts[1].as_str());
            let size = match parse_dec_u32(parts[2].as_str()) {
                Some(v) => v,
                None => {
                    return Err(CacheError::MalformedLine(j));
                },
            };
            let hash = match Md5Sum::parse(parts[3].as_str()) {
                Some(h) => h,
                None => {
                    return Err(CacheError::MalformedLine(j));
                },
            };
            let entry = CacheEntry { mtime: mt, size, hash };
            cache.insert(CacheKey::raw(key_string), entry);
            proof {
                assert(kview == sp[0]);
                assert(spec_cache_line(lines[j as int]) == Some((kview, entry)));
                let x = (kview, entry);
                assert(parsed.push(x).drop_last() =~= parsed);
                parsed = parsed.push(x);
            }
            j = j + 1;
        }
        proof {
            assert(parsed =~= cache_entries_of(lines));
            assert forall|s: Seq<(Seq<char>, CacheEntry)>|
                storable(s) && text@ == cache_text(s) implies cache@ == s by {
                lemma_canonical_cache_lines(s);
                let mapped = s.map_values(|x: (Seq<char>, CacheEntry)| entry_line(x.0, x.1));
                assert(lines == mapped);
                assert forall|i: int| 0 <= i < s.len() implies parsed[i] == s[i] by {
                    assert(spec_cache_line(lines[i]) == Some((s[i].0, s[i].1)));
                    assert(spec_cache_line(lines[i]) == Some(parsed[i]));
                    assert(s[i] == (s[i].0, s[i].1));
                }
                assert(parsed =~= s);
                lemma_insert_all_sorted_id(s);
            }
        }
        Ok(cache)
    }
}

} // verus!
