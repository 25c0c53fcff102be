//! A TOML patcher: rewrites a configuration file's text, replacing the
//! values of a given set of dotted keys and appending the keys the file did
//! not contain. Only the plain format is covered: bare and dotted keys,
//! `[table]` headers, one `key = value` per line.
//!
//! Everything works on raw bytes; a line's text is never reflowed, only
//! replaced or copied.

use vstd::prelude::*;

verus! {

pub const DOT: u8 = 46;
pub const EQUALS: u8 = 61;
pub const HASH: u8 = 35;
pub const NEWLINE: u8 = 10;
pub const CARRIAGE: u8 = 13;
pub const SPACE: u8 = 32;
pub const TAB: u8 = 9;
pub const OPEN_BRACKET: u8 = 91;
pub const CLOSE_BRACKET: u8 = 93;

broadcast use crate::types::lemma_bytes_deep_view, crate::types::lemma_pair_deep_view;

// ------------------------------------------------------------------
// Byte-level helpers
// ------------------------------------------------------------------
pub open spec fn is_ws(c: u8) -> bool {
    c == SPACE || c == TAB
}

/// A character allowed in a bare key: ASCII letters, digits, `-` and `_`.
pub open spec fn is_bare(c: u8) -> bool {
    (48 <= c <= 57) || (65 <= c <= 90) || (97 <= c <= 122) || c == 45 || c == 95
}

pub open spec fn all_bare(s: Seq<u8>) -> bool {
    forall|i: int| 0 <= i < s.len() ==> is_bare(#[trigger] s[i])
}

pub open spec fn trim_start(s: Seq<u8>) -> Seq<u8>
    decreases s.len(),
{
    if s.len() > 0 && is_ws(s[0]) {
        trim_start(s.skip(1))
    } else {
        s
    }
}

pub open spec fn trim_end(s: Seq<u8>) -> Seq<u8>
    decreases s.len(),
{
    if s.len() > 0 && is_ws(s[s.len() - 1]) {
        trim_end(s.drop_last())
    } else {
        s
    }
}

/// ASCII whitespace removed from both ends.
pub open spec fn spec_trim(s: Seq<u8>) -> Seq<u8> {
    trim_end(trim_start(s))
}

proof fn lemma_trim_start_range(s: Seq<u8>, lo: int)
    requires
        0 <= lo <= s.len(),
        forall|j: int| 0 <= j < lo ==> is_ws(#[trigger] s[j]),
        lo == s.len() || !is_ws(s[lo]),
    ensures
        trim_start(s) =~= s.skip(lo),
    decreases lo,
{
    if lo == 0 {
        if s.len() > 0 && is_ws(s[0]) {
            assert(false);
        }
    } else {
        assert(is_ws(s[0]));
        assert(forall|j: int| 0 <= j < s.skip(1).len() ==> s.skip(1)[j] == s[j + 1]);
        lemma_trim_start_range(s.skip(1), lo - 1);
        assert(s.skip(1).skip(lo - 1) =~= s.skip(lo));
    }
}

proof fn lemma_trim_end_range(s: Seq<u8>, hi: int)
    requires
        0 <= hi <= s.len(),
        forall|j: int| hi <= j < s.len() ==> is_ws(#[trigger] s[j]),
        hi == 0 || !is_ws(s[hi - 1]),
    ensures
        trim_end(s) =~= s.take(hi),
    decreases s.len() - hi,
{
    if hi == s.len() {
        if s.len() > 0 && is_ws(s[s.len() - 1]) {
            assert(false);
        }
        assert(s.take(hi) =~= s);
    } else {
        assert(is_ws(s[s.len() - 1]));
        assert(s.drop_last() =~= s.take(s.len() - 1));
        lemma_trim_end_range(s.drop_last(), hi);
        assert(s.drop_last().take(hi) =~= s.take(hi));
    }
}

/// Copies `s[lo..hi]`.
pub fn copy_range(s: &[u8], lo: usize, hi: usize) -> (r: Vec<u8>)
    requires
        lo <= hi <= s@.len(),
    ensures
        r@ == s@.subrange(lo as int, hi as int),
{
    let mut r: Vec<u8> = Vec::new();
    let mut i: usize = lo;
    while i < hi
        invariant
            lo <= i <= hi <= s@.len(),
            r@ == s@.subrange(lo as int, i as int),
        decreases hi - i,
    {
        r.push(s[i]);
        proof {
            assert(r@ =~= s@.subrange(lo as int, i + 1 as int));
        }
        i = i + 1;
    }
    r
}

/// ASCII whitespace trimmed from both ends of `s`.
pub fn trim_bytes(s: &[u8]) -> (r: Vec<u8>)
    ensures
        r@ == spec_trim(s@),
{
    let mut lo: usize = 0;
    let n = s.len();
    while lo < n && (s[lo] == SPACE || s[lo] == TAB)
        invariant
            lo <= n,
            n == s@.len(),
            forall|j: int| 0 <= j < lo ==> is_ws(#[trigger] s@[j]),
        decreases n - lo,
    {
        lo = lo + 1;
    }
    let mut hi: usize = n;
    while hi > lo && (s[hi - 1] == SPACE || s[hi - 1] == TAB)
        invariant
            lo <= hi <= n,
            n == s@.len(),
            forall|j: int| 0 <= j < lo ==> is_ws(#[trigger] s@[j]),
            forall|j: int| hi <= j < n ==> is_ws(#[trigger] s@[j]),
        decreases hi,
    {
        hi = hi - 1;
    }
    proof {
        lemma_trim_start_range(s@, lo as int);
        if hi == lo {
            lemma_trim_end_range(s@.skip(lo as int), 0);
        } else {
            lemma_trim_end_range(s@.skip(lo as int), hi - lo as int);
        }
        assert(s@.skip(lo as int).take(hi - lo as int) =~= s@.subrange(lo as int, hi as int));
        assert(s@.skip(lo as int).take(0) =~= s@.subrange(lo as int, lo as int));
    }
    copy_range(s, lo, hi)
}

/// Index of the first occurrence of `b` in `s`, or the length when absent.
pub open spec fn spec_find(s: Seq<u8>, b: u8) -> int
    decreases s.len(),
{
    if s.len() == 0 {
        0
    } else if s[0] == b {
        0
    } else {
        1 + spec_find(s.skip(1), b)
    }
}

proof fn lemma_spec_find_at(s: Seq<u8>, b: u8, i: int)
    requires
        0 <= i <= s.len(),
        forall|j: int| 0 <= j < i ==> s[j] != b,
        i == s.len() || s[i] == b,
    ensures
        spec_find(s, b) == i,
        spec_find(s, b) <= s.len(),
        i < s.len() ==> s[i] == b,
    decreases i,
{
    if i == 0 {
        if s.len() > 0 && s[0] != b {
            assert(forall|j: int| 0 <= j < s.skip(1).len() ==> s.skip(1)[j] == s[j + 1]);
            lemma_spec_find_bound(s.skip(1), b);
        }
    } else {
        assert(forall|j: int| 0 <= j < s.skip(1).len() ==> s.skip(1)[j] == s[j + 1]);
        lemma_spec_find_at(s.skip(1), b, i - 1);
    }
}

proof fn lemma_spec_find_bound(s: Seq<u8>, b: u8)
    ensures
        0 <= spec_find(s, b) <= s.len(),
        spec_find(s, b) < s.len() ==> s[spec_find(s, b)] == b,
        forall|j: int| 0 <= j < spec_find(s, b) ==> s[j] != b,
    decreases s.len(),
{
    if s.len() == 0 {
    } else if s[0] == b {
    } else {
        assert(forall|j: int| 0 <= j < s.skip(1).len() ==> s.skip(1)[j] == s[j + 1]);
        lemma_spec_find_bound(s.skip(1), b);
        assert forall|j: int| 0 <= j < spec_find(s, b) implies s[j] != b by {
            if j > 0 {
                assert(s.skip(1)[j - 1] != b);
            }
        }
    }
}

/// First occurrence of `b` at or after `from`.
pub fn find_byte(s: &[u8], from: usize, b: u8) -> (r: usize)
    requires
        from <= s@.len(),
    ensures
        from <= r <= s@.len(),
        r - from == spec_find(s@.skip(from as int), b),
        r < s@.len() ==> s@[r as int] == b,
        forall|j: int| from <= j < r ==> s@[j] != b,
    {
    let mut i = from;
    while i < s.len() && s[i] != b
        invariant
            from <= i <= s@.len(),
            forall|j: int| from <= j < i ==> s@[j] != b,
        decreases s@.len() - i,
    {
        i = i + 1;
    }
    proof {
        assert(forall|j: int|
            0 <= j < s@.skip(from as int).len() ==> s@.skip(from as int)[j] == s@[j + from]);
        lemma_spec_find_at(s@.skip(from as int), b, i - from as int);
    }
    i
}

/// Whether every byte may appear in a bare key.
pub fn all_bare_exec(s: &Vec<u8>) -> (r: bool)
    ensures
        r == all_bare(s@),
{
    let mut i: usize = 0;
    while i < s.len()
        invariant
            i <= s@.len(),
            forall|j: int| 0 <= j < i ==> is_bare(#[trigger] s@[j]),
        decreases s@.len() - i,
    {
        let c = s[i];
        let ok = (48 <= c && c <= 57) || (65 <= c && c <= 90) || (97 <= c && c <= 122) || c == 45
            || c == 95;
        if !ok {
            return false;
        }
        i = i + 1;
    }
    true
}

// ------------------------------------------------------------------
// Line classification
// ------------------------------------------------------------------
/// One classified line of a TOML file.
#[derive(Debug, PartialEq)]
pub enum TomlLine {
    /// The dotted key of a `[table]` header, in canonical (trimmed) form.
    Table(Vec<u8>),
    /// The key text of a `key = value` line, trimmed but otherwise as
    /// written.
    KvPair(Vec<u8>),
    /// A comment, an empty line, or anything else.
    Unknown,
}

/// Ghost model of a [`TomlLine`].
pub ghost enum TomlLineModel {
    Table(Seq<u8>),
    KvPair(Seq<u8>),
    Unknown,
}

impl DeepView for TomlLine {
    type V = TomlLineModel;

    open spec fn deep_view(&self) -> TomlLineModel {
        match self {
            TomlLine::Table(k) => TomlLineModel::Table(k@),
            TomlLine::KvPair(k) => TomlLineModel::KvPair(k@),
            TomlLine::Unknown => TomlLineModel::Unknown,
        }
    }
}

/// Canonical form of a dotted key: each `.`-separated segment trimmed, every
/// segment made of bare characters only, segments joined back with `.`.
pub open spec fn spec_key_rec(s: Seq<u8>, acc: Seq<u8>, first: bool) -> Option<Seq<u8>>
    decreases s.len(),
    via spec_key_rec_dec
{
    let i = spec_find(s, DOT);
    let seg = spec_trim(s.take(i));
    if !all_bare(seg) {
        None
    } else {
        let acc2 = if first {
            seg
        } else {
            acc + seq![DOT] + seg
        };
        if i >= s.len() {
            Some(acc2)
        } else {
            spec_key_rec(s.skip(i + 1), acc2, false)
        }
    }
}

#[via_fn]
proof fn spec_key_rec_dec(s: Seq<u8>, acc: Seq<u8>, first: bool) {
    lemma_spec_find_bound(s, DOT);
}

pub open spec fn spec_parse_key(s: Seq<u8>) -> Option<Seq<u8>> {
    if s.len() == 0 || s[0] == DOT || s[s.len() - 1] == DOT {
        None
    } else {
        spec_key_rec(s, Seq::empty(), true)
    }
}

impl TomlLine {
    /// `key = value` as one line.
    pub fn encode_kv(key: &Vec<u8>, val: &Vec<u8>) -> (r: Vec<u8>)
        ensures
            r@ == spec_encode_kv(key@, val@),
    {
        let mut r = crate::types::clone_bytes(key);
        r.push(SPACE);
        r.push(EQUALS);
        r.push(SPACE);
        let mut i: usize = 0;
        while i < val.len()
            invariant
                i <= val@.len(),
                r@ == key@ + seq![SPACE, EQUALS, SPACE] + val@.take(i as int),
            decreases val@.len() - i,
        {
            r.push(val[i]);
            proof {
                assert(r@ =~= key@ + seq![SPACE, EQUALS, SPACE] + val@.take(i + 1 as int));
            }
            i = i + 1;
        }
        proof {
            assert(r@ =~= key@ + seq![SPACE, EQUALS, SPACE] + val@);
            assert(key@ + seq![SPACE, EQUALS, SPACE] + val@.take(0) =~= key@ + seq![
                SPACE,
                EQUALS,
                SPACE,
            ] + Seq::<u8>::empty());
        }
        r
    }

    /// Validates a dotted key and returns its canonical form.
    pub fn parse_key(s: &Vec<u8>) -> (r: Option<Vec<u8>>)
        ensures
            match r {
                Some(k) => spec_parse_key(s@) == Some(k@),
                None => spec_parse_key(s@) is None,
            },
    {
        if s.len() == 0 || s[0] == DOT || s[s.len() - 1] == DOT {
            return None;
        }
        let mut out: Vec<u8> = Vec::new();
        let mut pos: usize = 0;
        let mut first: bool = true;
        proof {
            assert(s@.skip(0) =~= s@);
            assert(out@ =~= Seq::<u8>::empty());
        }
        loop
            invariant
                pos <= s@.len(),
                spec_parse_key(s@) == spec_key_rec(s@.skip(pos as int), out@, first),
            decreases s@.len() - pos,
        {
            let i = find_byte(s.as_slice(), pos, DOT);
            let seg = trim_bytes(copy_range(s.as_slice(), pos, i).as_slice());
            proof {
                assert(s@.skip(pos as int).take(i - pos as int) =~= s@.subrange(
                    pos as int,
                    i as int,
                ));
            }
            if !all_bare_exec(&seg) {
                return None;
            }
            if first {
                out = seg;
            } else {
                let ghost old_out = out@;
                out.push(DOT);
                let mut j: usize = 0;
                let ghost base = out@;
                while j < seg.len()
                    invariant
                        j <= seg@.len(),
                        out@ == base + seg@.take(j as int),
                    decreases seg@.len() - j,
                {
                    out.push(seg[j]);
                    proof {
                        assert(out@ =~= base + seg@.take(j + 1 as int));
                    }
                    j = j + 1;
                }
                proof {
                    assert(base + seg@.take(0) =~= base);
                    assert(out@ =~= base + seg@);
                    assert(out@ =~= old_out + seq![DOT] + seg@);
                }
            }
            if i >= s.len() {
                return Some(out);
            }
            proof {
                assert(s@.skip(pos as int).skip(i - pos + 1 as int) =~= s@.skip(i + 1 as int));
            }
            pos = i + 1;
            first = false;
        }
    }

    /// Classifies a `key = value` line (a stray `=`-free line whose text is
    /// itself a valid key also counts).
    pub fn parse_kv(s: &Vec<u8>) -> (r: TomlLine)
        ensures
            r.deep_view() == spec_parse_kv(s@),
    {
        let i = find_byte(s.as_slice(), 0, EQUALS);
        proof {
            assert(s@.skip(0) =~= s@);
        }
        if i >= s.len() {
            // no `=`: the whole line must be a bare key
            let k = trim_bytes(s.as_slice());
            proof {
                assert(s@.take(s@.len() as int) =~= s@);
            }
            match TomlLine::parse_key(&k) {
                Some(_) => TomlLine::KvPair(k),
                None => TomlLine::Unknown,
            }
        } else {
            let j = find_byte(s.as_slice(), i + 1, EQUALS);
            if j < s.len() {
                // more than one `=`
                return TomlLine::Unknown;
            }
            let k = trim_bytes(copy_range(s.as_slice(), 0, i).as_slice());
            proof {
                assert(s@.subrange(0, i as int) =~= s@.take(i as int));
            }
            match TomlLine::parse_key(&k) {
                Some(_) => TomlLine::KvPair(k),
                None => TomlLine::Unknown,
            }
        }
    }

    /// Classifies one line: a `[table]` header, a key/value pair (possibly
    /// behind one `#`), or anything else.
    pub fn parse(s: &Vec<u8>) -> (r: TomlLine)
        ensures
            r.deep_view() == spec_parse_line(s@),
    {
        let t = trim_bytes(s.as_slice());
        if t.len() >= 2 && t[0] == OPEN_BRACKET && t[t.len() - 1] == CLOSE_BRACKET {
            let inner = copy_range(t.as_slice(), 1, t.len() - 1);
            return match TomlLine::parse_key(&inner) {
                Some(k) => TomlLine::Table(k),
                None => TomlLine::Unknown,
            };
        }
        if t.len() >= 1 && t[0] == HASH {
            let rest = copy_range(t.as_slice(), 1, t.len());
            proof {
                assert(t@.subrange(1, t@.len() as int) =~= t@.skip(1));
            }
            TomlLine::parse_kv(&rest)
        } else {
            TomlLine::parse_kv(&t)
        }
    }

    /// `k1.k2`, or whichever of the two is non-empty.
    pub fn concat_key(k1: &Vec<u8>, k2: &Vec<u8>) -> (r: Vec<u8>)
        ensures
            r@ == spec_concat_key(k1@, k2@),
    {
        if k1.len() == 0 {
            return crate::types::clone_bytes(k2);
        }
        if k2.len() == 0 {
            return crate::types::clone_bytes(k1);
        }
        let mut r = crate::types::clone_bytes(k1);
        r.push(DOT);
        let ghost base = r@;
        let mut j: usize = 0;
        while j < k2.len()
            invariant
                j <= k2@.len(),
                r@ == base + k2@.take(j as int),
            decreases k2@.len() - j,
        {
            r.push(k2[j]);
            proof {
                assert(r@ =~= base + k2@.take(j + 1 as int));
            }
            j = j + 1;
        }
        proof {
            assert(base + k2@.take(0) =~= base);
            assert(r@ =~= k1@ + seq![DOT] + k2@);
        }
        r
    }

    /// Everything before the last `.`, or the whole key when it has none.
    pub fn get_prefix(key: &Vec<u8>) -> (r: Vec<u8>)
        ensures
            r@ == spec_get_prefix(key@),
    {
        let mut i: usize = key.len();
        while i > 0 && key[i - 1] != DOT
            invariant
                i <= key@.len(),
                forall|j: int| i <= j < key@.len() ==> key@[j] != DOT,
            decreases i,
        {
            i = i - 1;
        }
        proof {
            lemma_after_last_dot(key@, i as int);
            assert(key@.subrange(0, i - 1 as int) =~= key@.take(i - 1 as int));
        }
        if i == 0 {
            crate::types::clone_bytes(key)
        } else {
            copy_range(key.as_slice(), 0, i - 1)
        }
    }

    /// Everything after the last `.`, or the whole key when it has none.
    pub fn last_segment(key: &Vec<u8>) -> (r: Vec<u8>)
        ensures
            r@ == spec_last_segment(key@),
    {
        let mut i: usize = key.len();
        while i > 0 && key[i - 1] != DOT
            invariant
                i <= key@.len(),
                forall|j: int| i <= j < key@.len() ==> key@[j] != DOT,
            decreases i,
        {
            i = i - 1;
        }
        proof {
            lemma_after_last_dot(key@, i as int);
            assert(key@.subrange(i as int, key@.len() as int) =~= key@.skip(i as int));
        }
        copy_range(key.as_slice(), i, key.len())
    }
}

pub open spec fn spec_encode_kv(key: Seq<u8>, val: Seq<u8>) -> Seq<u8> {
    key + seq![SPACE, EQUALS, SPACE] + val
}

pub open spec fn spec_parse_kv(s: Seq<u8>) -> TomlLineModel {
    let i = spec_find(s, EQUALS);
    if i >= s.len() {
        let k = spec_trim(s);
        match spec_parse_key(k) {
            Some(_) => TomlLineModel::KvPair(k),
            None => TomlLineModel::Unknown,
        }
    } else if spec_find(s.skip(i + 1), EQUALS) < s.len() - i - 1 {
        TomlLineModel::Unknown
    } else {
        let k = spec_trim(s.take(i));
        match spec_parse_key(k) {
            Some(_) => TomlLineModel::KvPair(k),
            None => TomlLineModel::Unknown,
        }
    }
}

pub open spec fn spec_parse_line(s: Seq<u8>) -> TomlLineModel {
    let t = spec_trim(s);
    if t.len() >= 2 && t[0] == OPEN_BRACKET && t[t.len() - 1] == CLOSE_BRACKET {
        match spec_parse_key(t.subrange(1, t.len() - 1)) {
            Some(k) => TomlLineModel::Table(k),
            None => TomlLineModel::Unknown,
        }
    } else if t.len() >= 1 && t[0] == HASH {
        spec_parse_kv(t.skip(1))
    } else {
        spec_parse_kv(t)
    }
}

pub open spec fn spec_concat_key(k1: Seq<u8>, k2: Seq<u8>) -> Seq<u8> {
    if k1.len() == 0 {
        k2
    } else if k2.len() == 0 {
        k1
    } else {
        k1 + seq![DOT] + k2
    }
}

/// Index just past the last `.`, or zero when there is none.
pub open spec fn spec_after_last_dot(key: Seq<u8>) -> int
    decreases key.len(),
{
    if key.len() == 0 {
        0
    } else if key[key.len() - 1] == DOT {
        key.len() as int
    } else {
        spec_after_last_dot(key.drop_last())
    }
}

pub open spec fn spec_get_prefix(key: Seq<u8>) -> Seq<u8> {
    let i = spec_after_last_dot(key);
    if i == 0 {
        key
    } else {
        key.take(i - 1)
    }
}

pub open spec fn spec_last_segment(key: Seq<u8>) -> Seq<u8> {
    key.skip(spec_after_last_dot(key))
}

// ------------------------------------------------------------------
// Splitting a file into lines
// ------------------------------------------------------------------
pub open spec fn strip_cr(s: Seq<u8>) -> Seq<u8> {
    if s.len() > 0 && s[s.len() - 1] == CARRIAGE {
        s.drop_last()
    } else {
        s
    }
}

/// The file's lines: split at `\n`, a trailing `\r` removed per line, no
/// empty line created by a final newline.
pub open spec fn spec_lines(s: Seq<u8>) -> Seq<Seq<u8>>
    decreases s.len(),
    via spec_lines_dec
{
    if s.len() == 0 {
        Seq::empty()
    } else {
        let i = spec_find(s, NEWLINE);
        if i >= s.len() {
            seq![strip_cr(s)]
        } else {
            seq![strip_cr(s.take(i))] + spec_lines(s.skip(i + 1))
        }
    }
}

#[via_fn]
proof fn spec_lines_dec(s: Seq<u8>) {
    lemma_spec_find_bound(s, NEWLINE);
}

/// Splits a file into lines (see [`spec_lines`]).
pub fn split_lines(src: &[u8]) -> (r: Vec<Vec<u8>>)
    ensures
        r.deep_view() == spec_lines(src@),
{
    let mut r: Vec<Vec<u8>> = Vec::new();
    let mut pos: usize = 0;
    proof {
        assert(src@.skip(0) =~= src@);
        assert(r.deep_view() =~= Seq::<Seq<u8>>::empty());
    }
    while pos < src.len()
        invariant
            pos <= src@.len(),
            spec_lines(src@) == r.deep_view() + spec_lines(src@.skip(pos as int)),
        decreases src@.len() - pos,
    {
        let ghost before = r.deep_view();
        let i = find_byte(src, pos, NEWLINE);
        let mut line = copy_range(src, pos, i);
        if line.len() > 0 && line[line.len() - 1] == CARRIAGE {
            let _ = line.pop();
        }
        proof {
            assert(src@.subrange(pos as int, i as int) =~= src@.skip(pos as int).take(
                i - pos as int,
            ));
            assert(src@.subrange(pos as int, i as int).drop_last() =~= src@.skip(pos as int).take(
                i - pos as int,
            ).drop_last());
            assert(line@ =~= strip_cr(src@.skip(pos as int).take(i - pos as int)));
        }
        r.push(line);
        proof {
            assert(r.deep_view() =~~= before.push(strip_cr(src@.skip(pos as int).take(
                i - pos as int,
            ))));
            if i < src.len() {
                assert(src@.skip(pos as int).skip(i - pos + 1 as int) =~= src@.skip(i + 1 as int));
                assert(before + (seq![strip_cr(src@.skip(pos as int).take(i - pos as int))]
                    + spec_lines(src@.skip(i + 1 as int))) =~~= r.deep_view() + spec_lines(
                    src@.skip(i + 1 as int),
                ));
            } else {
                assert(src@.skip(pos as int).take(i - pos as int) =~= src@.skip(pos as int));
                assert(before + seq![strip_cr(src@.skip(pos as int))] =~~= r.deep_view());
                assert(src@.skip(src@.len() as int).len() == 0);
                assert(r.deep_view() + spec_lines(src@.skip(src@.len() as int)) =~= r.deep_view());
            }
        }
        pos = if i < src.len() {
            i + 1
        } else {
            src.len()
        };
    }
    proof {
        assert(src@.skip(pos as int).len() == 0);
        assert(r.deep_view() + spec_lines(src@.skip(pos as int)) =~= r.deep_view());
    }
    r
}

// ------------------------------------------------------------------
// The writer
// ------------------------------------------------------------------
/// First index whose entry is keyed `k`, if any.
pub open spec fn spec_change_find(change: Seq<(Seq<u8>, Seq<u8>)>, k: Seq<u8>) -> Option<int>
    decreases change.len(),
{
    if change.len() == 0 {
        None
    } else if change[0].0 == k {
        Some(0)
    } else {
        match spec_change_find(change.skip(1), k) {
            Some(j) => Some(j + 1),
            None => None,
        }
    }
}

proof fn lemma_change_find_at(change: Seq<(Seq<u8>, Seq<u8>)>, k: Seq<u8>, i: int)
    requires
        0 <= i <= change.len(),
        forall|j: int| 0 <= j < i ==> change[j].0 != k,
        i == change.len() || change[i].0 == k,
    ensures
        i < change.len() ==> spec_change_find(change, k) == Some(i),
        i == change.len() ==> spec_change_find(change, k) is None,
    decreases i, change.len(),
{
    if change.len() == 0 {
    } else if i == 0 {
        if change[0].0 != k {
            assert(forall|j: int|
                0 <= j < change.skip(1).len() ==> change.skip(1)[j] == change[j + 1]);
            lemma_change_find_at(change.skip(1), k, 0);
        }
    } else {
        assert(forall|j: int|
            0 <= j < change.skip(1).len() ==> change.skip(1)[j] == change[j + 1]);
        lemma_change_find_at(change.skip(1), k, i - 1);
    }
}

/// Where the first match sits: always inside the sequence, keyed `k`.
pub proof fn lemma_change_find_props(change: Seq<(Seq<u8>, Seq<u8>)>, k: Seq<u8>)
    ensures
        match spec_change_find(change, k) {
            Some(j) => 0 <= j < change.len() && change[j].0 == k,
            None => true,
        },
    decreases change.len(),
{
    if change.len() == 0 {
    } else if change[0].0 == k {
    } else {
        assert(forall|j: int|
            0 <= j < change.skip(1).len() ==> change.skip(1)[j] == change[j + 1]);
        lemma_change_find_props(change.skip(1), k);
    }
}

/// Finds the first entry keyed `k` in the pending change set.
fn change_find(change: &Vec<(Vec<u8>, Vec<u8>)>, k: &Vec<u8>) -> (r: Option<usize>)
    ensures
        match r {
            Some(i) => {
                &&& i < change@.len()
                &&& spec_change_find(change.deep_view(), k@) == Some(i as int)
                &&& change.deep_view()[i as int].0 == k@
            },
            None => spec_change_find(change.deep_view(), k@) is None,
        },
{
    let mut i: usize = 0;
    while i < change.len()
        invariant
            i <= change@.len(),
            forall|j: int| 0 <= j < i ==> change.deep_view()[j].0 != k@,
        decreases change@.len() - i,
    {
        if crate::types::bytes_eq(&change[i].0, k) {
            proof {
                lemma_change_find_at(change.deep_view(), k@, i as int);
            }
            return Some(i);
        }
        i = i + 1;
    }
    proof {
        lemma_change_find_at(change.deep_view(), k@, i as int);
    }
    None
}

/// Ghost state of the writer while patching: output produced so far, the
/// current table, and the entries not yet placed.
#[verifier::ext_equal]
pub ghost struct PatchState {
    pub dst: Seq<u8>,
    pub table: Seq<u8>,
    pub change: Seq<(Seq<u8>, Seq<u8>)>,
}

/// Flushing the pending entries of the current table: for each entry's last
/// key segment, in entry order, the entry keyed `table.segment` (if still
/// pending) is written as `segment = value` and consumed.
pub open spec fn spec_flush_table(st: PatchState, segs: Seq<Seq<u8>>) -> PatchState
    decreases segs.len(),
{
    if segs.len() == 0 {
        st
    } else {
        let full = spec_concat_key(st.table, segs[0]);
        let next = match spec_change_find(st.change, full) {
            Some(j) => PatchState {
                dst: st.dst + spec_encode_kv(segs[0], st.change[j].1) + seq![NEWLINE],
                table: st.table,
                change: st.change.remove(j),
            },
            None => st,
        };
        spec_flush_table(next, segs.skip(1))
    }
}

/// Flushing only consumes entries and keeps the table.
pub proof fn lemma_flush_table_props(st: PatchState, segs: Seq<Seq<u8>>)
    ensures
        spec_flush_table(st, segs).change.len() <= st.change.len(),
        spec_flush_table(st, segs).table == st.table,
    decreases segs.len(),
{
    if segs.len() == 0 {
    } else {
        let full = spec_concat_key(st.table, segs[0]);
        lemma_change_find_props(st.change, full);
        match spec_change_find(st.change, full) {
            Some(j) => {
                let next = PatchState {
                    dst: st.dst + spec_encode_kv(segs[0], st.change[j].1) + seq![NEWLINE],
                    table: st.table,
                    change: st.change.remove(j),
                };
                lemma_flush_table_props(next, segs.skip(1));
            },
            None => {
                lemma_flush_table_props(st, segs.skip(1));
            },
        }
    }
}

/// The last key segments of the pending entries, in order.
pub open spec fn spec_segs(change: Seq<(Seq<u8>, Seq<u8>)>) -> Seq<Seq<u8>> {
    change.map_values(|e: (Seq<u8>, Seq<u8>)| spec_last_segment(e.0))
}

/// One source line: a table header flushes the previous table's pending
/// entries and switches tables; a key line is replaced when its full dotted
/// key is pending; everything else is copied through.
pub open spec fn spec_patch_line(st: PatchState, line: Seq<u8>) -> PatchState {
    match spec_parse_line(line) {
        TomlLineModel::Table(keys) => {
            let st1 = spec_flush_table(st, spec_segs(st.change));
            PatchState {
                dst: st1.dst + line + seq![NEWLINE],
                table: keys,
                change: st1.change,
            }
        },
        TomlLineModel::KvPair(keys) => {
            let full = spec_concat_key(st.table, keys);
            match spec_change_find(st.change, full) {
                Some(j) => PatchState {
                    dst: st.dst + spec_encode_kv(keys, st.change[j].1) + seq![NEWLINE],
                    table: st.table,
                    change: st.change.remove(j),
                },
                None => PatchState {
                    dst: st.dst + line + seq![NEWLINE],
                    table: st.table,
                    change: st.change,
                },
            }
        },
        TomlLineModel::Unknown => PatchState {
            dst: st.dst + line + seq![NEWLINE],
            table: st.table,
            change: st.change,
        },
    }
}

pub open spec fn spec_patch_lines(st: PatchState, lines: Seq<Seq<u8>>) -> PatchState
    decreases lines.len(),
{
    if lines.len() == 0 {
        st
    } else {
        spec_patch_lines(spec_patch_line(st, lines[0]), lines.skip(1))
    }
}

/// Appending the entries no line of the file consumed: new `[table]`
/// headers named by each leading entry's key prefix, until everything is
/// placed. An entry whose key has no dotted prefix is placed under a table
/// named after itself.
pub open spec fn spec_patch_tail(st: PatchState) -> PatchState
    decreases st.change.len(),
    via spec_patch_tail_dec
{
    if st.change.len() == 0 {
        st
    } else {
        let table = spec_get_prefix(st.change[0].0);
        let st1 = PatchState {
            dst: st.dst + seq![OPEN_BRACKET] + table + seq![CLOSE_BRACKET, NEWLINE],
            table,
            change: st.change,
        };
        let st2 = spec_flush_table(st1, spec_segs(st1.change));
        let st3 = if st2.change.len() == st.change.len() {
            // the leading entry was not consumed (its key has no dotted
            // prefix): place it directly
            PatchState {
                dst: st2.dst + spec_encode_kv(spec_last_segment(st2.change[0].0), st2.change[0].1)
                    + seq![NEWLINE],
                table: st2.table,
                change: st2.change.remove(0),
            }
        } else {
            st2
        };
        spec_patch_tail(st3)
    }
}

#[via_fn]
proof fn spec_patch_tail_dec(st: PatchState) {
    if st.change.len() != 0 {
        let table = spec_get_prefix(st.change[0].0);
        let st1 = PatchState {
            dst: st.dst + seq![OPEN_BRACKET] + table + seq![CLOSE_BRACKET, NEWLINE],
            table,
            change: st.change,
        };
        lemma_flush_table_props(st1, spec_segs(st1.change));
    }
}

/// The complete patch of one file against one change set.
pub open spec fn spec_write_change(
    dst: Seq<u8>,
    table: Seq<u8>,
    src: Seq<u8>,
    change: Seq<(Seq<u8>, Seq<u8>)>,
) -> PatchState {
    let st = spec_patch_lines(
        PatchState { dst, table, change },
        spec_lines(src),
    );
    if st.change.len() == 0 {
        st
    } else {
        let st1 = spec_flush_table(st, spec_segs(st.change));
        let st2 = spec_patch_tail(st1);
        PatchState { dst: st2.dst + seq![NEWLINE], table: st2.table, change: st2.change }
    }
}

/// Rewrites a configuration file, replacing the values of a set of dotted
/// keys and appending the keys the file does not contain.
pub struct TomlWriter {
    pub dst: Vec<u8>,
    pub current_table: Vec<u8>,
}

impl TomlWriter {
    pub fn new() -> (r: TomlWriter)
        ensures
            r.dst@ =~= Seq::<u8>::empty(),
            r.current_table@ =~= Seq::<u8>::empty(),
    {
        TomlWriter { dst: Vec::new(), current_table: Vec::new() }
    }

    /// Patches `src` with `change` (a list of dotted key / value text
    /// pairs), appending the result to this writer's output. The outcome is
    /// exactly [`spec_write_change`]; every pending entry is placed.
    pub fn write_change(&mut self, src: &[u8], change: Vec<(Vec<u8>, Vec<u8>)>)
        ensures
            final(self).dst@ == spec_write_change(
                old(self).dst@,
                old(self).current_table@,
                src@,
                change.deep_view(),
            ).dst,
            final(self).current_table@ == spec_write_change(
                old(self).dst@,
                old(self).current_table@,
                src@,
                change.deep_view(),
            ).table,
            spec_write_change(
                old(self).dst@,
                old(self).current_table@,
                src@,
                change.deep_view(),
            ).change.len() == 0,
    {
        let mut change = change;
        let lines = split_lines(src);
        let ghost lv = lines.deep_view();
        let ghost st0 = PatchState {
            dst: self.dst@,
            table: self.current_table@,
            change: change.deep_view(),
        };
        let mut i: usize = 0;
        proof {
            assert(lv.skip(0) =~= lv);
        }
        while i < lines.len()
            invariant
                i <= lines@.len(),
                lv == lines.deep_view(),
                lv.len() == lines@.len(),
                spec_patch_lines(st0, lv) == spec_patch_lines(
                    PatchState {
                        dst: self.dst@,
                        table: self.current_table@,
                        change: change.deep_view(),
                    },
                    lv.skip(i as int),
                ),
            decreases lines@.len() - i,
        {
            proof {
                crate::store::lemma_skip_step(lv, i as int);
            }
            let ghost st_before = PatchState {
                dst: self.dst@,
                table: self.current_table@,
                change: change.deep_view(),
            };
            let line = &lines[i];
            match TomlLine::parse(line) {
                TomlLine::Table(keys) => {
                    self.write_current_table(&mut change);
                    self.write(line.as_slice());
                    self.current_table = keys;
                },
                TomlLine::KvPair(keys) => {
                    let full = TomlLine::concat_key(&self.current_table, &keys);
                    match change_find(&change, &full) {
                        Some(j) => {
                            let ghost cv = change.deep_view();
                            let (_, value) = change.remove(j);
                            proof {
                                assert(change.deep_view() =~= cv.remove(j as int));
                            }
                            let encoded = TomlLine::encode_kv(&keys, &value);
                            self.write(encoded.as_slice());
                        },
                        None => {
                            self.write(line.as_slice());
                        },
                    }
                },
                TomlLine::Unknown => {
                    self.write(line.as_slice());
                },
            }
            i = i + 1;
        }
        proof {
            assert(lv.skip(i as int).len() == 0);
            assert(spec_patch_lines(st0, lv) == PatchState {
                dst: self.dst@,
                table: self.current_table@,
                change: change.deep_view(),
            });
        }
        if change.len() == 0 {
            return;
        }
        self.write_current_table(&mut change);
        while change.len() > 0
            invariant
                spec_patch_tail(
                    PatchState {
                        dst: self.dst@,
                        table: self.current_table@,
                        change: change.deep_view(),
                    },
                ) == spec_patch_tail(
                    spec_flush_table(
                        spec_patch_lines(st0, lv),
                        spec_segs(spec_patch_lines(st0, lv).change),
                    ),
                ),
                change.deep_view().len() == change@.len(),
            decreases change@.len(),
        {
            let ghost before = PatchState {
                dst: self.dst@,
                table: self.current_table@,
                change: change.deep_view(),
            };
            let n_before: usize = change.len();
            self.current_table = TomlLine::get_prefix(&change[0].0);
            let mut header: Vec<u8> = Vec::new();
            header.push(OPEN_BRACKET);
            let ghost hb = header@;
            let mut j: usize = 0;
            while j < self.current_table.len()
                invariant
                    j <= self.current_table@.len(),
                    header@ == hb + self.current_table@.take(j as int),
                decreases self.current_table@.len() - j,
            {
                header.push(self.current_table[j]);
                proof {
                    assert(header@ =~= hb + self.current_table@.take(j + 1 as int));
                }
                j = j + 1;
            }
            header.push(CLOSE_BRACKET);
            proof {
                assert(hb + self.current_table@.take(0) =~= hb);
                assert(header@ =~= seq![OPEN_BRACKET] + self.current_table@ + seq![
                    CLOSE_BRACKET,
                ]);
            }
            self.write(header.as_slice());
            let ghost st1 = PatchState {
                dst: self.dst@,
                table: self.current_table@,
                change: change.deep_view(),
            };
            proof {
                assert(st1 =~~= (PatchState {
                    dst: before.dst + seq![OPEN_BRACKET] + spec_get_prefix(before.change[0].0)
                        + seq![CLOSE_BRACKET, NEWLINE],
                    table: spec_get_prefix(before.change[0].0),
                    change: before.change,
                }));
            }
            self.write_current_table(&mut change);
            let ghost st2 = PatchState {
                dst: self.dst@,
                table: self.current_table@,
                change: change.deep_view(),
            };
            proof {
                assert(st2 == spec_flush_table(st1, spec_segs(st1.change)));
                lemma_flush_table_props(st1, spec_segs(st1.change));
            }
            if change.len() == n_before {
                // the leading entry's key has no dotted prefix: place it
                // under the table just written
                let ghost cv = change.deep_view();
                let (key, value) = change.remove(0);
                proof {
                    assert(change.deep_view() =~~= cv.remove(0));
                }
                let seg = TomlLine::last_segment(&key);
                let encoded = TomlLine::encode_kv(&seg, &value);
                self.write(encoded.as_slice());
                proof {
                    assert(PatchState {
                        dst: self.dst@,
                        table: self.current_table@,
                        change: change.deep_view(),
                    } =~~= (PatchState {
                        dst: st2.dst + spec_encode_kv(
                            spec_last_segment(st2.change[0].0),
                            st2.change[0].1,
                        ) + seq![NEWLINE],
                        table: st2.table,
                        change: st2.change.remove(0),
                    }));
                }
            }
            proof {
                assert(spec_patch_tail(before) == spec_patch_tail(PatchState {
                    dst: self.dst@,
                    table: self.current_table@,
                    change: change.deep_view(),
                }));
            }
        }
        proof {
            assert(change.deep_view().len() == 0);
        }
        self.new_line();
    }

    /// Writes, and consumes, every pending entry that belongs to the
    /// current table.
    fn write_current_table(&mut self, change: &mut Vec<(Vec<u8>, Vec<u8>)>)
        ensures
            ({
                let st = spec_flush_table(
                    PatchState {
                        dst: old(self).dst@,
                        table: old(self).current_table@,
                        change: old(change).deep_view(),
                    },
                    spec_segs(old(change).deep_view()),
                );
                &&& final(self).dst@ == st.dst
                &&& final(self).current_table@ == st.table
                &&& final(self).current_table@ == old(self).current_table@
                &&& final(change).deep_view() == st.change
                &&& final(change)@.len() <= old(change)@.len()
            }),
    {
        let mut segs: Vec<Vec<u8>> = Vec::new();
        let mut i: usize = 0;
        proof {
            assert(segs.deep_view() =~= Seq::<Seq<u8>>::empty());
        }
        while i < change.len()
            invariant
                i <= change@.len(),
                segs.deep_view() =~= spec_segs(change.deep_view().take(i as int)),
            decreases change@.len() - i,
        {
            let ghost sv = segs.deep_view();
            segs.push(TomlLine::last_segment(&change[i].0));
            proof {
                assert(segs.deep_view() =~~= sv.push(spec_last_segment(
                    change.deep_view()[i as int].0,
                )));
                assert(change.deep_view().take(i + 1 as int) =~= change.deep_view().take(
                    i as int,
                ).push(change.deep_view()[i as int]));
                assert(segs.deep_view() =~~= spec_segs(change.deep_view().take(i + 1 as int)));
            }
            i = i + 1;
        }
        proof {
            assert(change.deep_view().take(change.deep_view().len() as int) =~= change.deep_view());
            assert(segs.deep_view() =~~= spec_segs(change.deep_view()));
        }
        let ghost all_segs = segs.deep_view();
        let ghost st0 = PatchState {
            dst: self.dst@,
            table: self.current_table@,
            change: change.deep_view(),
        };
        let mut k: usize = 0;
        proof {
            assert(all_segs.skip(0) =~= all_segs);
        }
        while k < segs.len()
            invariant
                k <= segs@.len(),
                all_segs == segs.deep_view(),
                all_segs.len() == segs@.len(),
                self.current_table@ == st0.table,
                change@.len() <= st0.change.len(),
                spec_flush_table(st0, all_segs) == spec_flush_table(
                    PatchState {
                        dst: self.dst@,
                        table: self.current_table@,
                        change: change.deep_view(),
                    },
                    all_segs.skip(k as int),
                ),
            decreases segs@.len() - k,
        {
            proof {
                crate::store::lemma_skip_step(all_segs, k as int);
            }
            let ghost st_here = PatchState {
                dst: self.dst@,
                table: self.current_table@,
                change: change.deep_view(),
            };
            let full = TomlLine::concat_key(&self.current_table, &segs[k]);
            match change_find(change, &full) {
                Some(j) => {
                    let ghost cv = change.deep_view();
                    let (_, value) = change.remove(j);
                    proof {
                        assert(change.deep_view() =~~= cv.remove(j as int));
                    }
                    let encoded = TomlLine::encode_kv(&segs[k], &value);
                    self.write(encoded.as_slice());
                    proof {
                        assert(PatchState {
                            dst: self.dst@,
                            table: self.current_table@,
                            change: change.deep_view(),
                        } =~~= (match spec_change_find(st_here.change, spec_concat_key(
                            st_here.table,
                            all_segs[k as int],
                        )) {
                            Some(j2) => PatchState {
                                dst: st_here.dst + spec_encode_kv(
                                    all_segs[k as int],
                                    st_here.change[j2].1,
                                ) + seq![NEWLINE],
                                table: st_here.table,
                                change: st_here.change.remove(j2),
                            },
                            None => st_here,
                        }));
                    }
                },
                None => {},
            }
            k = k + 1;
        }
        proof {
            assert(all_segs.skip(k as int).len() == 0);
        }
    }

    /// Appends one line of output.
    fn write(&mut self, s: &[u8])
        ensures
            final(self).dst@ == old(self).dst@ + s@ + seq![NEWLINE],
            final(self).current_table == old(self).current_table,
    {
        let ghost base = self.dst@;
        let mut i: usize = 0;
        while i < s.len()
            invariant
                i <= s@.len(),
                self.dst@ == base + s@.take(i as int),
                self.current_table == old(self).current_table,
            decreases s@.len() - i,
        {
            self.dst.push(s[i]);
            proof {
                assert(self.dst@ =~= base + s@.take(i + 1 as int));
            }
            i = i + 1;
        }
        proof {
            assert(base + s@.take(0) =~= base);
            assert(self.dst@ =~= base + s@);
        }
        self.new_line();
        proof {
            assert(self.dst@ =~= base + s@ + seq![NEWLINE]);
        }
    }

    /// Appends a bare newline.
    fn new_line(&mut self)
        ensures
            final(self).dst@ == old(self).dst@ + seq![NEWLINE],
            final(self).current_table == old(self).current_table,
    {
        self.dst.push(NEWLINE);
        proof {
            assert(self.dst@ =~= old(self).dst@ + seq![NEWLINE]);
        }
    }

    /// Hands the accumulated output back.
    pub fn finish(self) -> (r: Vec<u8>)
        ensures
            r == self.dst,
    {
        self.dst
    }
}

proof fn lemma_after_last_dot(key: Seq<u8>, i: int)
    requires
        0 <= i <= key.len(),
        forall|j: int| i <= j < key.len() ==> key[j] != DOT,
        i == 0 || key[i - 1] == DOT,
    ensures
        spec_after_last_dot(key) == i,
    decreases key.len(),
{
    if key.len() == 0 {
    } else if key[key.len() - 1] == DOT {
        assert(i == key.len());
    } else {
        assert(key.drop_last() =~= key.take(key.len() - 1));
        lemma_after_last_dot(key.drop_last(), i);
    }
}

} // verus!
