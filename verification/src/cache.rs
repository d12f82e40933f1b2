use crate::color::Color;
use crate::numfmt::{
    dec_chars_int, dec_chars_nat, hex_chars_of, lemma_parse_format_i32, push_hex,
    push_i32_decimal, spec_parse_i32,
};
use crate::text::{push_char, push_str_all, str_eq};
use vstd::prelude::*;
use vstd::string::StrSliceExecFns;

verus! {

/// What can go wrong while serving a cache message. A failure never
/// surfaces to a search: a broken record reads as a miss.
#[derive(Clone, Copy, Debug, PartialEq, Eq, Structural)]
pub enum ErrorCode {
    Error,
    CannotReadCacheFile,
    CannotParseColorComponent,
}

/// The digest that the cache names record files by; it depends on the
/// hashed text alone.
pub uninterp spec fn md5_of(key: Seq<char>) -> Seq<u8>;

/// Relies on `md5::compute`: the digest of the key's bytes, sixteen bytes.
#[verifier::external_body]
fn md5_digest(key: &str) -> (r: Vec<u8>)
    ensures
        r@ == md5_of(key@),
        r@.len() == 16,
{
    md5::compute(key).0.to_vec()
}

/// The relative path of the persisted record for a key: the cache
/// directory, then the hex digest of the key, then the record extension.
pub open spec fn spec_record_path(key: Seq<char>) -> Seq<char> {
    ".cache/"@ + hex_chars_of(md5_of(key)) + ".txt"@
}

/// Where the record for a key is persisted.
pub fn record_path(url: &str) -> (r: String)
    ensures
        r@ == spec_record_path(url@),
{
    let digest = md5_digest(url);
    let mut s = String::new();
    push_str_all(&mut s, ".cache/");
    push_hex(&mut s, &digest);
    push_str_all(&mut s, ".txt");
    assert(s@ =~= spec_record_path(url@));
    s
}

/// The body of a persisted record: the three components as decimal text,
/// each on its own line, in lightness, chroma-a, chroma-b order.
pub open spec fn record_chars(c: Color) -> Seq<char> {
    dec_chars_int(c.l as int) + seq!['\n'] + dec_chars_int(c.a as int) + seq!['\n']
        + dec_chars_int(c.b as int) + seq!['\n']
}

/// Serializes a color into its record body.
pub fn encode_record(c: &Color) -> (s: String)
    ensures
        s@ == record_chars(*c),
{
    let mut s = String::new();
    push_i32_decimal(&mut s, c.l);
    push_char(&mut s, '\n');
    push_i32_decimal(&mut s, c.a);
    push_char(&mut s, '\n');
    push_i32_decimal(&mut s, c.b);
    push_char(&mut s, '\n');
    assert(s@ =~= record_chars(*c));
    s
}

/// The position of the first line break at or after `from`, or the length
/// of the string when there is none.
pub open spec fn find_newline(s: Seq<char>, from: int) -> int
    recommends
        0 <= from <= s.len(),
    decreases s.len() - from when 0 <= from <= s.len()
{
    if from >= s.len() {
        s.len() as int
    } else if s[from] == '\n' {
        from
    } else {
        find_newline(s, from + 1)
    }
}

proof fn lemma_find_newline_props(s: Seq<char>, from: int)
    requires
        0 <= from <= s.len(),
    ensures
        from <= find_newline(s, from) <= s.len(),
        find_newline(s, from) < s.len() ==> s[find_newline(s, from)] == '\n',
    decreases s.len() - from,
{
    if from < s.len() && s[from] != '\n' {
        lemma_find_newline_props(s, from + 1);
    }
}

/// Locates the first line break exactly, given a witness position.
proof fn lemma_find_newline_at(s: Seq<char>, from: int, j: int)
    requires
        0 <= from <= j <= s.len(),
        forall|k: int| from <= k < j ==> s[k] != '\n',
        j < s.len() ==> s[j] == '\n',
    ensures
        find_newline(s, from) == j,
    decreases j - from,
{
    if from < j {
        lemma_find_newline_at(s, from + 1, j);
    }
}

/// What a record body denotes: three decimal lines within the component
/// range make a color; anything else makes nothing.
pub open spec fn spec_parse_record(s: Seq<char>) -> Option<Color> {
    let e1 = find_newline(s, 0);
    if e1 >= s.len() {
        None
    } else {
        let e2 = find_newline(s, e1 + 1);
        if e2 >= s.len() {
            None
        } else {
            let e3 = find_newline(s, e2 + 1);
            let r1 = spec_parse_i32(s.subrange(0, e1));
            let r2 = spec_parse_i32(s.subrange(e1 + 1, e2));
            let r3 = spec_parse_i32(s.subrange(e2 + 1, e3));
            if r1 is Some && r2 is Some && r3 is Some {
                let c = Color { l: r1->Some_0, a: r2->Some_0, b: r3->Some_0 };
                if c.valid() {
                    Some(c)
                } else {
                    None
                }
            } else {
                None
            }
        }
    }
}

/// Finds the first line break at or after `from`.
fn find_nl(s: &str, from: usize) -> (r: usize)
    requires
        from <= s@.len(),
    ensures
        r == find_newline(s@, from as int),
        from <= r <= s@.len(),
{
    let n = s.unicode_len();
    let mut i: usize = from;
    while i < n
        invariant
            from <= i <= n,
            n == s@.len(),
            find_newline(s@, from as int) == find_newline(s@, i as int),
        decreases n - i,
    {
        if s.get_char(i) == '\n' {
            return i;
        }
        i += 1;
    }
    i
}

/// Deserializes a record body, accepting exactly what
/// `spec_parse_record` accepts; the result is always well formed.
pub fn parse_record(s: &str) -> (r: Option<Color>)
    ensures
        r == spec_parse_record(s@),
        r is Some ==> r->Some_0.valid(),
{
    let n = s.unicode_len();
    let e1 = find_nl(s, 0);
    if e1 == n {
        return None;
    }
    let e2 = find_nl(s, e1 + 1);
    if e2 == n {
        return None;
    }
    let e3 = find_nl(s, e2 + 1);
    proof {
        lemma_find_newline_props(s@, 0);
        lemma_find_newline_props(s@, e1 + 1);
        lemma_find_newline_props(s@, e2 + 1);
    }
    let p1 = s.substring_char(0, e1);
    let p2 = s.substring_char(e1 + 1, e2);
    let p3 = s.substring_char(e2 + 1, e3);
    let v1 = crate::numfmt::parse_i32(p1);
    let v2 = crate::numfmt::parse_i32(p2);
    let v3 = crate::numfmt::parse_i32(p3);
    match (v1, v2, v3) {
        (Some(l), Some(a), Some(b)) => Color::new(l, a, b),
        _ => None,
    }
}

/// Law: a record written for a well-formed color reads back as exactly
/// that color, on a cold in-memory cache with a warm disk.
pub proof fn lemma_record_round_trip(c: Color)
    requires
        c.valid(),
    ensures
        spec_parse_record(record_chars(c)) == Some(c),
{
    let d1 = dec_chars_int(c.l as int);
    let d2 = dec_chars_int(c.a as int);
    let d3 = dec_chars_int(c.b as int);
    let s = record_chars(c);
    lemma_dec_chars_int_no_newline(c.l as int);
    lemma_dec_chars_int_no_newline(c.a as int);
    lemma_dec_chars_int_no_newline(c.b as int);
    let e1 = d1.len() as int;
    let e2 = d1.len() + 1 + d2.len() as int;
    let e3 = d1.len() + 1 + d2.len() + 1 + d3.len() as int;
    assert(s.len() == e3 + 1);
    assert(forall|k: int| 0 <= k < e1 ==> s[k] == d1[k]);
    assert(s[e1] == '\n');
    lemma_find_newline_at(s, 0, e1);
    assert(forall|k: int| e1 + 1 <= k < e2 ==> s[k] == d2[k - (e1 + 1)]);
    assert(s[e2] == '\n');
    lemma_find_newline_at(s, e1 + 1, e2);
    assert(forall|k: int| e2 + 1 <= k < e3 ==> s[k] == d3[k - (e2 + 1)]);
    assert(s[e3] == '\n');
    lemma_find_newline_at(s, e2 + 1, e3);
    assert(s.subrange(0, e1) =~= d1);
    assert(s.subrange(e1 + 1, e2) =~= d2);
    assert(s.subrange(e2 + 1, e3) =~= d3);
    lemma_parse_format_i32(c.l);
    lemma_parse_format_i32(c.a);
    lemma_parse_format_i32(c.b);
}

proof fn lemma_dec_chars_int_no_newline(v: int)
    ensures
        forall|k: int|
            0 <= k < dec_chars_int(v).len() ==> #[trigger] dec_chars_int(v)[k] != '\n',
{
    let s = dec_chars_int(v);
    if v < 0 {
        crate::numfmt::lemma_dec_chars_nat_val((-v) as nat);
        assert forall|k: int| 0 <= k < s.len() implies s[k] != '\n' by {
            if k == 0 {
                assert(s[0] == '-');
            } else {
                assert(s[k] == dec_chars_nat((-v) as nat)[k - 1]);
                assert(crate::numfmt::is_dec_digit(s[k]));
            }
        }
    } else {
        crate::numfmt::lemma_dec_chars_nat_val(v as nat);
        assert forall|k: int| 0 <= k < s.len() implies s[k] != '\n' by {
            assert(crate::numfmt::is_dec_digit(s[k]));
        }
    }
}

/// One remembered pair: the key and its color, newest pairs first.
type CacheEntry = (String, Color);

spec fn assoc_map(s: Seq<CacheEntry>) -> Map<Seq<char>, Color>
    decreases s.len(),
{
    if s.len() == 0 {
        Map::empty()
    } else {
        assoc_map(s.drop_first()).insert(s[0].0@, s[0].1)
    }
}

/// While no entry before `i` holds the key, the mapping for the key is
/// decided by the entries from `i` on.
proof fn lemma_assoc_prefix_no_match(s: Seq<CacheEntry>, i: int, key: Seq<char>)
    requires
        0 <= i <= s.len(),
        forall|k: int| 0 <= k < i ==> (#[trigger] s[k]).0@ != key,
    ensures
        assoc_map(s).contains_key(key) == assoc_map(s.skip(i)).contains_key(key),
        assoc_map(s.skip(i)).contains_key(key) ==> assoc_map(s)[key] == assoc_map(
            s.skip(i),
        )[key],
    decreases i,
{
    if i > 0 {
        let t = s.drop_first();
        assert(forall|k: int| 0 <= k < i - 1 ==> (#[trigger] t[k]).0@ != key) by {
            assert(forall|k: int| 0 <= k < i - 1 ==> t[k] == #[trigger] s[k + 1]);
        }
        lemma_assoc_prefix_no_match(t, i - 1, key);
        assert(t.skip(i - 1) =~= s.skip(i));
        assert(s[0].0@ != key);
    } else {
        assert(s.skip(0) =~= s);
    }
}

spec fn all_valid(s: Seq<CacheEntry>) -> bool {
    forall|i: int| 0 <= i < s.len() ==> (#[trigger] s[i]).1.valid()
}

/// The in-memory half of the dominant-color cache: what the cache actor
/// remembers for the lifetime of the process. Its model is the mapping
/// from keys to colors; keys are exact strings, never normalized.
pub struct ColorCache {
    entries: Vec<CacheEntry>,
}

impl View for ColorCache {
    type V = Map<Seq<char>, Color>;

    closed spec fn view(&self) -> Map<Seq<char>, Color> {
        assoc_map(self.entries@)
    }
}

impl ColorCache {
    /// Every remembered color is well formed.
    pub closed spec fn wf(self) -> bool {
        all_valid(self.entries@)
    }

    /// An empty cache: at actor startup nothing is remembered.
    pub fn new() -> (r: ColorCache)
        ensures
            r.wf(),
            r@ == Map::<Seq<char>, Color>::empty(),
    {
        ColorCache { entries: Vec::new() }
    }

    /// The in-memory read: the color stored for exactly this key.
    pub fn lookup(&self, url: &str) -> (r: Option<Color>)
        requires
            self.wf(),
        ensures
            r is Some <==> self@.contains_key(url@),
            r is Some ==> r->Some_0 == self@[url@] && r->Some_0.valid(),
    {
        let ghost whole = self.entries@;
        let mut i: usize = 0;
        while i < self.entries.len()
            invariant
                self.wf(),
                whole == self.entries@,
                0 <= i <= whole.len(),
                forall|k: int| 0 <= k < i ==> (#[trigger] whole[k]).0@ != url@,
            decreases whole.len() - i,
        {
            let hit = str_eq(self.entries[i].0.as_str(), url);
            if hit {
                proof {
                    lemma_assoc_prefix_no_match(whole, i as int, url@);
                    let rest = whole.skip(i as int);
                    assert(rest[0] == whole[i as int]);
                }
                return Some(self.entries[i].1);
            }
            i += 1;
        }
        proof {
            lemma_assoc_prefix_no_match(whole, whole.len() as int, url@);
            assert(whole.skip(whole.len() as int) =~= Seq::<CacheEntry>::empty());
        }
        None
    }

    /// The in-memory write: remembers the color under exactly this key,
    /// shadowing whatever the key held before.
    pub fn store(&mut self, url: &str, c: Color)
        requires
            old(self).wf(),
            c.valid(),
        ensures
            final(self).wf(),
            final(self)@ == old(self)@.insert(url@, c),
    {
        let pair = (url.to_owned(), c);
        self.entries.insert(0, pair);
        proof {
            assert(self.entries@.drop_first() =~= old(self).entries@);
        }
    }

    /// Absorbs the persisted record read for a missing key: a record that
    /// parses is remembered and returned; anything else — a missing file,
    /// an unreadable one, a corrupt body — reads as a miss and changes
    /// nothing.
    pub fn absorb_record(&mut self, url: &str, text: Option<&str>) -> (r: Option<Color>)
        requires
            old(self).wf(),
        ensures
            final(self).wf(),
            r == match text {
                Some(t) => spec_parse_record(t@),
                None => None::<Color>,
            },
            r is Some ==> final(self)@ == old(self)@.insert(url@, r->Some_0)
                && r->Some_0.valid(),
            r is None ==> final(self)@ == old(self)@,
    {
        match text {
            None => None,
            Some(t) => {
                match parse_record(t) {
                    None => None,
                    Some(c) => {
                        self.store(url, c);
                        Some(c)
                    },
                }
            },
        }
    }
}

/// Law: reading a previously written key is unaffected by later writes to
/// other keys, however the writes interleave: the model after any such
/// write still holds the same color for the key.
pub proof fn lemma_cache_read_idempotent(
    m: Map<Seq<char>, Color>,
    key: Seq<char>,
    other: Seq<char>,
    c: Color,
)
    requires
        m.contains_key(key),
        other != key,
    ensures
        m.insert(other, c).contains_key(key),
        m.insert(other, c)[key] == m[key],
{
}

} // verus!
