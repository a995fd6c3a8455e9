//! The upload-metadata wire codec.
//!
//! The wire format is a comma-separated list of pairs; each pair is a key and
//! an optional base64-encoded value separated by a single space. Pairs are
//! trimmed of surrounding whitespace; an empty pair is skipped; a pair with
//! more than two space-separated tokens is a format error; a missing value
//! defaults to the empty string. Values are decoded lazily: parsing never
//! validates base64, only `decode` does.

use vstd::prelude::*;

verus! {

use vstd::string::StrSliceExecFns;
use vstd::string::StringExecFns;

/// An error raised while parsing a metadata string or decoding a value.
#[derive(Debug, PartialEq)]
pub enum MetadataError {
    /// A key was empty, or a queried key is absent.
    InvalidKey,
    /// A value is not valid base64; carries the decoder's message.
    DecodeError(String),
    /// The metadata string does not follow the wire format.
    InvalidMetadataFormat,
}

/// Whitespace that is trimmed from the ends of a pair.
pub open spec fn is_space_char(c: char) -> bool {
    c == ' ' || c == '\t' || c == '\r' || c == '\n'
}

/// A character of the standard base64 alphabet, or its padding.
pub open spec fn is_b64_char(c: char) -> bool {
    ('A' <= c && c <= 'Z') || ('a' <= c && c <= 'z') || ('0' <= c && c <= '9') || c == '+' || c
        == '/' || c == '='
}

/// What the standard base64 decoder returns on a given text: the decoded
/// bytes, or nothing where the text is not valid base64.
pub uninterp spec fn b64_decode_of(s: Seq<char>) -> Option<Seq<u8>>;

/// What the standard base64 encoder returns on given bytes.
pub uninterp spec fn b64_encode_of(b: Seq<u8>) -> Seq<char>;

/// Relies on base64's `Engine::decode` with the `STANDARD` engine: it returns
/// the bytes a text encodes, or an error where the text is not valid base64,
/// and decodes the empty text to no bytes.
#[verifier::external_body]
fn b64_decode(s: &str) -> (r: Result<Vec<u8>, String>)
    ensures
        match r {
            Ok(b) => b64_decode_of(s@) == Some(b@) && (s@.len() == 0 ==> b@.len() == 0),
            Err(_) => b64_decode_of(s@) is None && s@.len() > 0,
        },
{
    match base64::Engine::decode(&base64::engine::general_purpose::STANDARD, s) {
        Ok(b) => Ok(b),
        Err(e) => Err(e.to_string()),
    }
}

/// Relies on base64's `Engine::encode` with the `STANDARD` engine: the result
/// is drawn from the standard alphabet plus padding, decodes back to the
/// input, and is empty exactly when the input is.
#[verifier::external_body]
fn b64_encode(b: &[u8]) -> (r: String)
    requires
        b@.len() <= usize::MAX / 4,
    ensures
        r@ == b64_encode_of(b@),
        b64_decode_of(r@) == Some(b@),
        forall|i: int| 0 <= i < r@.len() ==> is_b64_char(#[trigger] r@[i]),
        (b@.len() == 0) == (r@.len() == 0),
{
    base64::Engine::encode(&base64::engine::general_purpose::STANDARD, b)
}

/// The leading characters of `s` up to its first non-space character are
/// dropped.
pub open spec fn trim_front_spec(s: Seq<char>) -> Seq<char>
    decreases s.len(),
{
    if s.len() > 0 && is_space_char(s[0]) {
        trim_front_spec(s.drop_first())
    } else {
        s
    }
}

/// The trailing characters of `s` back to its last non-space character are
/// dropped.
pub open spec fn trim_back_spec(s: Seq<char>) -> Seq<char>
    decreases s.len(),
{
    if s.len() > 0 && is_space_char(s[s.len() - 1]) {
        trim_back_spec(s.drop_last())
    } else {
        s
    }
}

/// `s` without leading and trailing whitespace.
pub open spec fn trim_spec(s: Seq<char>) -> Seq<char> {
    trim_back_spec(trim_front_spec(s))
}

/// `s` cut at every occurrence of `sep`; always at least one piece, and a
/// piece for each side of each separator, possibly empty.
pub open spec fn split_on(s: Seq<char>, sep: char) -> Seq<Seq<char>>
    decreases s.len(),
{
    if s.len() == 0 {
        seq![Seq::<char>::empty()]
    } else if s[0] == sep {
        seq![Seq::<char>::empty()] + split_on(s.drop_first(), sep)
    } else {
        let rest = split_on(s.drop_first(), sep);
        seq![seq![s[0]] + rest[0]] + rest.drop_first()
    }
}

proof fn lemma_split_on_len(s: Seq<char>, sep: char)
    ensures
        split_on(s, sep).len() >= 1,
    decreases s.len(),
{
    if s.len() == 0 {
    } else if s[0] == sep {
        lemma_split_on_len(s.drop_first(), sep);
    } else {
        lemma_split_on_len(s.drop_first(), sep);
    }
}

proof fn lemma_split_on_no_sep(s: Seq<char>, sep: char)
    requires
        forall|i: int| 0 <= i < s.len() ==> s[i] != sep,
    ensures
        split_on(s, sep) == seq![s],
    decreases s.len(),
{
    if s.len() == 0 {
        assert(split_on(s, sep) =~~= seq![s]);
    } else {
        assert(s[0] != sep);
        lemma_split_on_no_sep(s.drop_first(), sep);
        let rest = split_on(s.drop_first(), sep);
        assert(rest == seq![s.drop_first()]);
        assert(seq![s[0]] + s.drop_first() =~= s);
        assert(rest.drop_first() =~~= Seq::<Seq<char>>::empty());
        assert(split_on(s, sep) =~~= seq![s]);
    }
}

proof fn lemma_split_on_at(s: Seq<char>, sep: char, i: int)
    requires
        0 <= i < s.len(),
        s[i] == sep,
        forall|j: int| 0 <= j < i ==> s[j] != sep,
    ensures
        split_on(s, sep) == seq![s.take(i)] + split_on(s.skip(i + 1), sep),
    decreases i,
{
    if i == 0 {
        assert(s.take(0) =~= Seq::<char>::empty());
        assert(s.skip(1) =~= s.drop_first());
        assert(split_on(s, sep) =~~= seq![s.take(0)] + split_on(s.skip(1), sep));
    } else {
        assert(s[0] != sep);
        let d = s.drop_first();
        assert(d[i - 1] == sep);
        assert(forall|j: int| 0 <= j < i - 1 ==> d[j] == s[j + 1] && d[j] != sep);
        lemma_split_on_at(d, sep, i - 1);
        let rest = split_on(d, sep);
        assert(rest == seq![d.take(i - 1)] + split_on(d.skip(i), sep));
        lemma_split_on_len(d.skip(i), sep);
        assert(rest[0] == d.take(i - 1));
        assert(seq![s[0]] + d.take(i - 1) =~= s.take(i));
        assert(rest.drop_first() =~~= split_on(d.skip(i), sep));
        assert(d.skip(i) =~= s.skip(i + 1));
        assert(split_on(s, sep) =~~= seq![s.take(i)] + split_on(s.skip(i + 1), sep));
    }
}

proof fn lemma_trim_front_range(s: Seq<char>, a: int)
    requires
        0 <= a <= s.len(),
        forall|j: int| 0 <= j < a ==> is_space_char(s[j]),
        a < s.len() ==> !is_space_char(s[a]),
    ensures
        trim_front_spec(s) == s.skip(a),
    decreases a,
{
    if a == 0 {
        assert(s.skip(0) =~= s);
    } else {
        assert(is_space_char(s[0]));
        let d = s.drop_first();
        assert(forall|j: int| 0 <= j < a - 1 ==> d[j] == s[j + 1] && is_space_char(d[j]));
        lemma_trim_front_range(d, a - 1);
        assert(d.skip(a - 1) =~= s.skip(a));
    }
}

proof fn lemma_trim_back_range(s: Seq<char>, b: int)
    requires
        0 <= b <= s.len(),
        forall|j: int| b <= j < s.len() ==> is_space_char(s[j]),
        b > 0 ==> !is_space_char(s[b - 1]),
    ensures
        trim_back_spec(s) == s.take(b),
    decreases s.len() - b,
{
    if b == s.len() {
        if s.len() > 0 {
            assert(!is_space_char(s[s.len() - 1]));
        }
        assert(s.take(b) =~= s);
    } else {
        assert(is_space_char(s[s.len() - 1]));
        let d = s.drop_last();
        assert(forall|j: int| b <= j < d.len() ==> d[j] == s[j] && is_space_char(d[j]));
        lemma_trim_back_range(d, b);
        assert(d.take(b) =~= s.take(b));
    }
}

/// One trimmed pair read as a key and an optional value: nothing for a blank
/// pair, `InvalidMetadataFormat` for more than two tokens, `InvalidKey` for an
/// empty key, and an empty value where only a key stands.
pub open spec fn parse_segment_spec(seg: Seq<char>) -> Result<
    Option<(Seq<char>, Seq<char>)>,
    MetadataError,
> {
    let t = trim_spec(seg);
    if t.len() == 0 {
        Ok(None)
    } else {
        let parts = split_on(t, ' ');
        if parts.len() > 2 {
            Err(MetadataError::InvalidMetadataFormat)
        } else if parts[0].len() == 0 {
            Err(MetadataError::InvalidKey)
        } else if parts.len() == 1 {
            Ok(Some((parts[0], Seq::<char>::empty())))
        } else {
            Ok(Some((parts[0], parts[1])))
        }
    }
}

/// `pairs` with `key` bound to `value`: the first pair holding `key` is
/// replaced in place, or the new pair is appended.
pub open spec fn upsert(
    pairs: Seq<(Seq<char>, Seq<char>)>,
    key: Seq<char>,
    value: Seq<char>,
) -> Seq<(Seq<char>, Seq<char>)>
    decreases pairs.len(),
{
    if pairs.len() == 0 {
        seq![(key, value)]
    } else if pairs[0].0 == key {
        seq![(key, value)] + pairs.drop_first()
    } else {
        seq![pairs[0]] + upsert(pairs.drop_first(), key, value)
    }
}

/// The value bound to `key`, where one is.
pub open spec fn lookup(pairs: Seq<(Seq<char>, Seq<char>)>, key: Seq<char>) -> Option<Seq<char>>
    decreases pairs.len(),
{
    if pairs.len() == 0 {
        None
    } else if pairs[0].0 == key {
        Some(pairs[0].1)
    } else {
        lookup(pairs.drop_first(), key)
    }
}

/// The pairs read from a list of comma-separated segments, folded left to
/// right onto `acc`; the first ill-formed segment decides the error.
pub open spec fn parse_segments(
    segs: Seq<Seq<char>>,
    acc: Seq<(Seq<char>, Seq<char>)>,
) -> Result<Seq<(Seq<char>, Seq<char>)>, MetadataError>
    decreases segs.len(),
{
    if segs.len() == 0 {
        Ok(acc)
    } else {
        match parse_segment_spec(segs[0]) {
            Err(e) => Err(e),
            Ok(None) => parse_segments(segs.drop_first(), acc),
            Ok(Some((k, v))) => parse_segments(segs.drop_first(), upsert(acc, k, v)),
        }
    }
}

/// What parsing a whole metadata string yields. The empty string yields the
/// empty pair sequence.
pub open spec fn parse_spec(s: Seq<char>) -> Result<Seq<(Seq<char>, Seq<char>)>, MetadataError> {
    parse_segments(split_on(s, ','), Seq::<(Seq<char>, Seq<char>)>::empty())
}

/// One pair written back to the wire: the key, then a single space and the
/// value where the value is not empty.
pub open spec fn serialize_pair_spec(p: (Seq<char>, Seq<char>)) -> Seq<char> {
    if p.1.len() == 0 {
        p.0
    } else {
        p.0 + seq![' '] + p.1
    }
}

/// The pairs written back to the wire, joined with commas.
pub open spec fn serialize_spec(pairs: Seq<(Seq<char>, Seq<char>)>) -> Seq<char>
    decreases pairs.len(),
{
    if pairs.len() == 0 {
        Seq::<char>::empty()
    } else if pairs.len() == 1 {
        serialize_pair_spec(pairs[0])
    } else {
        serialize_pair_spec(pairs[0]) + seq![','] + serialize_spec(pairs.drop_first())
    }
}

/// The key/value annotations attached to one upload, keys unique.
#[derive(Debug)]
pub struct Metadata {
    pairs: Vec<(String, String)>,
}

/// The pair sequence a raw `(String, String)` vector stands for.
spec fn pairs_view(ps: Seq<(String, String)>) -> Seq<(Seq<char>, Seq<char>)> {
    ps.map_values(|p: (String, String)| (p.0@, p.1@))
}

impl View for Metadata {
    type V = Seq<(Seq<char>, Seq<char>)>;

    closed spec fn view(&self) -> Seq<(Seq<char>, Seq<char>)> {
        pairs_view(self.pairs@)
    }
}

/// The keys of a pair sequence are pairwise distinct.
pub open spec fn unique_keys(pairs: Seq<(Seq<char>, Seq<char>)>) -> bool {
    forall|i: int, j: int|
        0 <= i < j < pairs.len() ==> (#[trigger] pairs[i]).0 != (#[trigger] pairs[j]).0
}

impl Metadata {
    #[verifier::type_invariant]
    spec fn wf(&self) -> bool {
        unique_keys(self@)
    }

    /// An empty metadata set.
    pub fn new() -> (r: Metadata)
        ensures
            r@ == Seq::<(Seq<char>, Seq<char>)>::empty(),
    {
        let m = Metadata { pairs: Vec::new() };
        proof {
            assert(m@ =~= Seq::<(Seq<char>, Seq<char>)>::empty());
        }
        m
    }

    /// How many keys are recorded.
    pub fn len(&self) -> (r: usize)
        ensures
            r == self@.len(),
    {
        self.pairs.len()
    }

    /// Binds `key` to `value`, replacing any earlier binding.
    fn insert_pair(&mut self, key: String, value: String)
        ensures
            final(self)@ == upsert(old(self)@, key@, value@),
    {
        proof {
            use_type_invariant(&*self);
        }
        let ghost pre = self@;
        let mut ps: Vec<(String, String)> = Vec::new();
        core::mem::swap(&mut ps, &mut self.pairs);
        let n = ps.len();
        let mut i: usize = 0;
        while i < n
            invariant
                i <= n,
                n == ps.len(),
                pairs_view(ps@) == pre,
                pre == old(self)@,
                unique_keys(pre),
                forall|j: int| 0 <= j < i ==> (#[trigger] pre[j]).0 != key@,
            decreases n - i,
        {
            if ps[i].0 == key {
                proof {
                    lemma_upsert_found(pre, key@, value@, i as int);
                    assert(unique_keys(pre.update(i as int, (key@, value@)))) by {
                        assert(pre[i as int].0 == key@);
                    }
                }
                ps[i] = (key, value);
                proof {
                    assert(pairs_view(ps@) =~= pre.update(i as int, (key@, value@)));
                }
                self.pairs = ps;
                proof {
                    assert(self@ =~= pre.update(i as int, (key@, value@)));
                }
                return ;
            }
            i += 1;
        }
        proof {
            lemma_upsert_fresh(pre, key@, value@);
        }
        ps.push((key, value));
        proof {
            assert(pairs_view(ps@) =~= pre.push((key@, value@)));
        }
        self.pairs = ps;
        proof {
            assert(self@ =~= pre.push((key@, value@)));
        }
    }
}

proof fn lemma_upsert_found(
    pairs: Seq<(Seq<char>, Seq<char>)>,
    key: Seq<char>,
    value: Seq<char>,
    i: int,
)
    requires
        0 <= i < pairs.len(),
        pairs[i].0 == key,
        forall|j: int| 0 <= j < i ==> (#[trigger] pairs[j]).0 != key,
    ensures
        upsert(pairs, key, value) == pairs.update(i, (key, value)),
    decreases i,
{
    if i == 0 {
        assert(seq![(key, value)] + pairs.drop_first() =~= pairs.update(0, (key, value)));
    } else {
        let d = pairs.drop_first();
        assert(forall|j: int| 0 <= j < i - 1 ==> (#[trigger] d[j]).0 == pairs[j + 1].0);
        lemma_upsert_found(d, key, value, i - 1);
        assert(seq![pairs[0]] + d.update(i - 1, (key, value)) =~= pairs.update(i, (key, value)));
    }
}

proof fn lemma_upsert_fresh(pairs: Seq<(Seq<char>, Seq<char>)>, key: Seq<char>, value: Seq<char>)
    requires
        forall|j: int| 0 <= j < pairs.len() ==> (#[trigger] pairs[j]).0 != key,
    ensures
        upsert(pairs, key, value) == pairs.push((key, value)),
    decreases pairs.len(),
{
    if pairs.len() == 0 {
        assert(upsert(pairs, key, value) =~= pairs.push((key, value)));
    } else {
        let d = pairs.drop_first();
        assert(forall|j: int| 0 <= j < d.len() ==> (#[trigger] d[j]).0 == pairs[j + 1].0);
        lemma_upsert_fresh(d, key, value);
        assert(seq![pairs[0]] + d.push((key, value)) =~= pairs.push((key, value)));
    }
}

/// Whether `c` is trimmed from the ends of a pair.
fn is_space(c: char) -> (r: bool)
    ensures
        r == is_space_char(c),
{
    c == ' ' || c == '\t' || c == '\r' || c == '\n'
}

/// Reads one comma-separated pair of the wire string and records it in `m`.
#[verifier::loop_isolation(false)]
fn process_segment(seg: &str, m: &mut Metadata) -> (r: Result<(), MetadataError>)
    ensures
        match parse_segment_spec(seg@) {
            Err(e) => r == Err::<(), MetadataError>(e),
            Ok(None) => r is Ok && final(m)@ == old(m)@,
            Ok(Some(kv)) => r is Ok && final(m)@ == upsert(old(m)@, kv.0, kv.1),
        },
{
    let n = seg.unicode_len();
    let mut a: usize = 0;
    while a < n && is_space(seg.get_char(a))
        invariant
            a <= n,
            forall|j: int| 0 <= j < a ==> is_space_char(seg@[j]),
        decreases n - a,
    {
        a += 1;
    }
    let mut b: usize = n;
    while b > a && is_space(seg.get_char(b - 1))
        invariant
            a <= b <= n,
            forall|j: int| b <= j < n ==> is_space_char(seg@[j]),
        decreases b,
    {
        b -= 1;
    }
    proof {
        lemma_trim_front_range(seg@, a as int);
        assert(forall|j: int|
            b - a <= j < seg@.skip(a as int).len() ==> is_space_char(seg@.skip(a as int)[j]));
        if b > a {
            assert(!is_space_char(seg@.skip(a as int)[b - a - 1]));
        }
        lemma_trim_back_range(seg@.skip(a as int), b - a);
        assert(trim_spec(seg@) =~= seg@.subrange(a as int, b as int));
    }
    if a == b {
        return Ok(());
    }
    let ghost t = seg@.subrange(a as int, b as int);
    assert(t[0] == seg@[a as int] && !is_space_char(t[0]));
    assert(t[t.len() - 1] == seg@[b - 1] && !is_space_char(t[t.len() - 1]));
    let mut j: usize = a;
    while j < b && seg.get_char(j) != ' '
        invariant
            a <= j <= b,
            forall|k: int| a <= k < j ==> seg@[k] != ' ',
        decreases b - j,
    {
        j += 1;
    }
    if j == b {
        proof {
            assert(forall|k: int| 0 <= k < t.len() ==> t[k] == seg@[k + a] && t[k] != ' ');
            lemma_split_on_no_sep(t, ' ');
        }
        let key = seg.substring_char(a, b).to_owned();
        m.insert_pair(key, String::new());
        return Ok(());
    }
    let ghost jr = j - a;
    proof {
        assert(seg@[j as int] == ' ');
        assert(jr > 0) by {
            assert(seg@[a as int] != ' ');
        }
        assert(t[jr] == ' ');
        assert(forall|k: int| 0 <= k < jr ==> t[k] == seg@[k + a] && t[k] != ' ');
        lemma_split_on_at(t, ' ', jr);
        assert(t.take(jr) =~= seg@.subrange(a as int, j as int));
        assert(t.skip(jr + 1) =~= seg@.subrange(j + 1, b as int));
    }
    let ghost v = t.skip(jr + 1);
    let mut j2: usize = j + 1;
    while j2 < b && seg.get_char(j2) != ' '
        invariant
            j + 1 <= j2 <= b,
            forall|k: int| j + 1 <= k < j2 ==> seg@[k] != ' ',
        decreases b - j2,
    {
        j2 += 1;
    }
    if j2 < b {
        proof {
            assert(seg@[j2 as int] == ' ');
            assert(forall|k: int| 0 <= k < v.len() ==> v[k] == seg@[k + j + 1]);
            assert(v[j2 - j - 1] == ' ');
            assert(forall|k: int| 0 <= k < j2 - j - 1 ==> v[k] != ' ');
            lemma_split_on_at(v, ' ', j2 - j - 1);
            lemma_split_on_len(v.skip(j2 - j), ' ');
            assert(split_on(t, ' ').len() >= 3);
        }
        return Err(MetadataError::InvalidMetadataFormat);
    }
    proof {
        assert(forall|k: int| 0 <= k < v.len() ==> v[k] == seg@[k + j + 1] && v[k] != ' ');
        lemma_split_on_no_sep(v, ' ');
        assert(split_on(t, ' ') =~~= seq![t.take(jr), v]);
    }
    let key = seg.substring_char(a, j).to_owned();
    let value = seg.substring_char(j + 1, b).to_owned();
    m.insert_pair(key, value);
    Ok(())
}

/// Parses the remainder of a wire string, one segment at a time, into `m`.
#[verifier::loop_isolation(false)]
fn parse_into(s: &str, m: &mut Metadata) -> (r: Result<(), MetadataError>)
    ensures
        match parse_segments(split_on(s@, ','), old(m)@) {
            Ok(pairs) => r is Ok && final(m)@ == pairs,
            Err(e) => r == Err::<(), MetadataError>(e),
        },
    decreases s@.len(),
{
    let n = s.unicode_len();
    let mut i: usize = 0;
    while i < n && s.get_char(i) != ','
        invariant
            i <= n,
            forall|j: int| 0 <= j < i ==> s@[j] != ',',
        decreases n - i,
    {
        i += 1;
    }
    let seg = s.substring_char(0, i);
    proof {
        assert(seg@ =~= s@.take(i as int));
        if i < n {
            lemma_split_on_at(s@, ',', i as int);
            assert((seq![s@.take(i as int)] + split_on(s@.skip(i + 1), ','))[0] == s@.take(
                i as int,
            ));
        } else {
            lemma_split_on_no_sep(s@, ',');
            assert(s@.take(i as int) =~= s@);
        }
    }
    let r1 = process_segment(seg, m);
    match r1 {
        Err(e) => {
            proof {
                let segs = split_on(s@, ',');
                lemma_split_on_len(s@, ',');
                assert(segs[0] == seg@);
                assert(parse_segment_spec(segs[0]) matches Err(e2) && e2 == e);
                assert(parse_segments(segs, old(m)@) == Err::<
                    Seq<(Seq<char>, Seq<char>)>,
                    MetadataError,
                >(e));
            }
            Err(e)
        },
        Ok(()) => {
            if i == n {
                proof {
                    reveal_with_fuel(parse_segments, 2);
                    let segs = split_on(s@, ',');
                    assert(segs.drop_first() =~~= Seq::<Seq<char>>::empty());
                    assert(parse_segments(segs, old(m)@) matches Ok(pairs) && pairs == m@);
                }
                Ok(())
            } else {
                let rest = s.substring_char(i + 1, n);
                let ghost mid = m@;
                proof {
                    assert(rest@ =~= s@.skip(i + 1));
                }
                let r2 = parse_into(rest, m);
                proof {
                    let segs = split_on(s@, ',');
                    assert(segs =~~= seq![seg@] + split_on(rest@, ','));
                    assert(segs.drop_first() =~~= split_on(rest@, ','));
                    match parse_segment_spec(seg@) {
                        Err(_) => {
                            assert(false);
                        },
                        Ok(None) => {
                            assert(mid == old(m)@);
                            assert(parse_segments(segs, old(m)@) == parse_segments(
                                split_on(rest@, ','),
                                mid,
                            ));
                        },
                        Ok(Some(kv)) => {
                            assert(mid == upsert(old(m)@, kv.0, kv.1));
                            assert(parse_segments(segs, old(m)@) == parse_segments(
                                split_on(rest@, ','),
                                mid,
                            ));
                        },
                    }
                }
                r2
            }
        },
    }
}

proof fn lemma_lookup_found(pairs: Seq<(Seq<char>, Seq<char>)>, key: Seq<char>, i: int)
    requires
        0 <= i < pairs.len(),
        pairs[i].0 == key,
        forall|j: int| 0 <= j < i ==> (#[trigger] pairs[j]).0 != key,
    ensures
        lookup(pairs, key) == Some(pairs[i].1),
    decreases i,
{
    if i == 0 {
    } else {
        let d = pairs.drop_first();
        assert(forall|j: int| 0 <= j < i - 1 ==> (#[trigger] d[j]) == pairs[j + 1]);
        lemma_lookup_found(d, key, i - 1);
    }
}

proof fn lemma_lookup_none(pairs: Seq<(Seq<char>, Seq<char>)>, key: Seq<char>)
    requires
        forall|j: int| 0 <= j < pairs.len() ==> (#[trigger] pairs[j]).0 != key,
    ensures
        lookup(pairs, key) is None,
    decreases pairs.len(),
{
    if pairs.len() == 0 {
    } else {
        let d = pairs.drop_first();
        assert(forall|j: int| 0 <= j < d.len() ==> (#[trigger] d[j]) == pairs[j + 1]);
        lemma_lookup_none(d, key);
    }
}

proof fn lemma_serialize_push(pairs: Seq<(Seq<char>, Seq<char>)>, x: (Seq<char>, Seq<char>))
    ensures
        serialize_spec(pairs.push(x)) == if pairs.len() == 0 {
            serialize_pair_spec(x)
        } else {
            serialize_spec(pairs) + seq![','] + serialize_pair_spec(x)
        },
    decreases pairs.len(),
{
    let p = pairs.push(x);
    if pairs.len() == 0 {
        assert(p.len() == 1 && p[0] == x);
    } else {
        assert(p[0] == pairs[0]);
        assert(p.drop_first() =~= pairs.drop_first().push(x));
        lemma_serialize_push(pairs.drop_first(), x);
        if pairs.len() == 1 {
            assert(serialize_spec(pairs) == serialize_pair_spec(pairs[0]));
        }
    }
}

/// Relies on `String::from_utf8`: it accepts exactly the byte sequences that
/// are valid UTF-8 and yields the characters they encode.
#[verifier::external_body]
fn string_from_utf8(v: Vec<u8>) -> (r: Option<String>)
    ensures
        match r {
            Some(s) => vstd::utf8::valid_utf8(v@) && s@ == vstd::utf8::decode_utf8(v@),
            None => !vstd::utf8::valid_utf8(v@),
        },
{
    String::from_utf8(v).ok()
}

/// Whether a metadata set carries a usable display name: a `filename` value
/// that is valid base64 and decodes to valid UTF-8.
pub open spec fn has_decodable_filename(pairs: Seq<(Seq<char>, Seq<char>)>) -> bool {
    &&& lookup(pairs, "filename"@) matches Some(v)
    &&& b64_decode_of(lookup(pairs, "filename"@)->0) matches Some(bytes)
    &&& vstd::utf8::valid_utf8(b64_decode_of(lookup(pairs, "filename"@)->0)->0)
}

/// The display name a metadata set carries: the `filename` value where it is
/// present, valid base64, and valid UTF-8, and the empty name otherwise.
pub open spec fn display_name_of(pairs: Seq<(Seq<char>, Seq<char>)>) -> Seq<char> {
    match lookup(pairs, "filename"@) {
        Some(v) => match b64_decode_of(v) {
            Some(bytes) => if vstd::utf8::valid_utf8(bytes) {
                vstd::utf8::decode_utf8(bytes)
            } else {
                Seq::<char>::empty()
            },
            None => Seq::<char>::empty(),
        },
        None => Seq::<char>::empty(),
    }
}

impl Metadata {
    /// The decoded bytes of the value recorded for `key`: `InvalidKey` where
    /// the key is absent, `DecodeError` where its value is not valid base64.
    pub fn get_raw(&self, key: &str) -> (r: Result<Vec<u8>, MetadataError>)
        ensures
            match lookup(self@, key@) {
                None => r == Err::<Vec<u8>, MetadataError>(MetadataError::InvalidKey),
                Some(v) => match b64_decode_of(v) {
                    Some(bytes) => r matches Ok(b) && b@ == bytes,
                    None => r matches Err(e) && e is DecodeError,
                },
            },
    {
        proof {
            use_type_invariant(&*self);
        }
        let k = key.to_owned();
        let n = self.pairs.len();
        let mut i: usize = 0;
        while i < n
            invariant
                i <= n,
                n == self.pairs.len(),
                k@ == key@,
                forall|j: int| 0 <= j < i ==> (#[trigger] self@[j]).0 != key@,
            decreases n - i,
        {
            if self.pairs[i].0 == k {
                proof {
                    lemma_lookup_found(self@, key@, i as int);
                }
                return match b64_decode(self.pairs[i].1.as_str()) {
                    Ok(b) => Ok(b),
                    Err(msg) => Err(MetadataError::DecodeError(msg)),
                };
            }
            i += 1;
        }
        proof {
            lemma_lookup_none(self@, key@);
        }
        Err(MetadataError::InvalidKey)
    }

    /// Writes the pairs back in the wire format: pairs joined with commas, a
    /// key and its value separated by one space, a bare key where the value
    /// is empty.
    pub fn serialize(&self) -> (r: String)
        ensures
            r@ == serialize_spec(self@),
    {
        let mut out = String::new();
        let n = self.pairs.len();
        let mut i: usize = 0;
        proof {
            assert(self@.take(0) =~= Seq::<(Seq<char>, Seq<char>)>::empty());
        }
        while i < n
            invariant
                i <= n,
                n == self.pairs.len(),
                out@ == serialize_spec(self@.take(i as int)),
            decreases n - i,
        {
            proof {
                reveal_strlit(",");
                reveal_strlit(" ");
                lemma_serialize_push(self@.take(i as int), self@[i as int]);
                assert(self@.take(i as int).push(self@[i as int]) =~= self@.take(i + 1));
            }
            if i > 0 {
                out.append(",");
                proof {
                    assert(","@ =~= seq![',']);
                }
            }
            out.append(self.pairs[i].0.as_str());
            let v = self.pairs[i].1.as_str();
            if v.unicode_len() > 0 {
                out.append(" ");
                out.append(v);
                proof {
                    assert(" "@ =~= seq![' ']);
                }
            }
            proof {
                assert(out@ =~= serialize_spec(self@.take(i + 1)));
            }
            i += 1;
        }
        proof {
            assert(self@.take(n as int) =~= self@);
        }
        out
    }

    /// Binds `key` to the base64 encoding of `value`, replacing any earlier
    /// binding; `decode` then returns exactly `value` for this key.
    pub fn insert_raw(&mut self, key: &str, value: &[u8])
        requires
            value@.len() <= usize::MAX / 4,
        ensures
            final(self)@ == upsert(old(self)@, key@, b64_encode_of(value@)),
            b64_decode_of(b64_encode_of(value@)) == Some(value@),
            forall|i: int|
                0 <= i < b64_encode_of(value@).len() ==> is_b64_char(
                    #[trigger] b64_encode_of(value@)[i],
                ),
    {
        let enc = b64_encode(value);
        self.insert_pair(key.to_owned(), enc);
    }

    /// The upload's display name where the metadata carries one: the decoded
    /// `filename` value, where it is valid base64 and valid UTF-8.
    pub fn try_file_name(&self) -> (r: Option<String>)
        ensures
            match r {
                Some(s) => has_decodable_filename(self@) && s@ == display_name_of(self@),
                None => !has_decodable_filename(self@),
            },
    {
        match self.get_raw("filename") {
            Ok(bytes) => match string_from_utf8(bytes) {
                Some(s) => Some(s),
                None => None,
            },
            Err(_) => None,
        }
    }

    /// An identical metadata set over fresh strings.
    pub fn duplicate(&self) -> (r: Metadata)
        ensures
            r@ == self@,
    {
        proof {
            use_type_invariant(&*self);
        }
        let n = self.pairs.len();
        let mut ps: Vec<(String, String)> = Vec::new();
        let mut i: usize = 0;
        while i < n
            invariant
                i <= n,
                n == self.pairs.len(),
                pairs_view(ps@) == self@.take(i as int),
                unique_keys(self@),
            decreases n - i,
        {
            let ghost prev = ps@;
            let k0 = self.pairs[i].0.clone();
            let v0 = self.pairs[i].1.clone();
            ps.push((k0, v0));
            proof {
                assert(self@.len() == n);
                assert(pairs_view(prev).len() == prev.len());
                assert(prev.len() == i);
                assert(ps@ == prev.push((k0, v0)));
                assert forall|k: int| 0 <= k < i + 1 implies pairs_view(ps@)[k] == self@.take(
                    i + 1,
                )[k] by {
                    if k < i {
                        assert(pairs_view(prev)[k] == self@.take(i as int)[k]);
                        assert(ps@[k] == prev[k]);
                    } else {
                        assert(ps@[k] == (k0, v0));
                        assert(self@[k] == (self.pairs@[k].0@, self.pairs@[k].1@));
                    }
                }
                assert(pairs_view(ps@) =~= self@.take(i + 1));
            }
            i += 1;
        }
        let m = Metadata { pairs: ps };
        proof {
            assert(self@.take(n as int) =~= self@);
        }
        m
    }

    /// Parses a metadata wire string. The empty string yields an empty set;
    /// an ill-formed pair yields `InvalidMetadataFormat` or `InvalidKey`.
    pub fn try_from(value: &str) -> (r: Result<Metadata, MetadataError>)
        ensures
            match parse_spec(value@) {
                Ok(pairs) => r matches Ok(m) && m@ == pairs,
                Err(e) => r == Err::<Metadata, MetadataError>(e),
            },
    {
        let mut m = Metadata::new();
        match parse_into(value, &mut m) {
            Ok(()) => Ok(m),
            Err(e) => Err(e),
        }
    }
}

/// A key that survives the wire unchanged: nonempty, free of commas and of
/// the whitespace that trimming and token splitting act on.
pub open spec fn wire_safe_key(k: Seq<char>) -> bool {
    k.len() > 0 && forall|i: int| 0 <= i < k.len() ==> k[i] != ',' && !is_space_char(#[trigger] k[i])
}

/// A value that survives the wire unchanged: base64 text, as the encoder
/// produces it.
pub open spec fn wire_safe_value(v: Seq<char>) -> bool {
    forall|i: int| 0 <= i < v.len() ==> is_b64_char(#[trigger] v[i])
}

/// A pair sequence that the wire format can carry verbatim.
pub open spec fn wire_safe(pairs: Seq<(Seq<char>, Seq<char>)>) -> bool {
    &&& unique_keys(pairs)
    &&& forall|i: int|
        0 <= i < pairs.len() ==> wire_safe_key((#[trigger] pairs[i]).0) && wire_safe_value(
            pairs[i].1,
        )
}

proof fn lemma_parse_serialized_pair(p: (Seq<char>, Seq<char>))
    requires
        wire_safe_key(p.0),
        wire_safe_value(p.1),
    ensures
        parse_segment_spec(serialize_pair_spec(p)) == Ok::<
            Option<(Seq<char>, Seq<char>)>,
            MetadataError,
        >(Some(p)),
{
    let s = serialize_pair_spec(p);
    let k = p.0;
    let v = p.1;
    if v.len() == 0 {
        assert(s == k);
        assert(forall|i: int| 0 <= i < s.len() ==> !is_space_char(#[trigger] s[i]) && s[i] != ' ');
        lemma_trim_front_range(s, 0);
        lemma_trim_back_range(s, s.len() as int);
        assert(trim_spec(s) == s);
        lemma_split_on_no_sep(s, ' ');
        assert(v =~= Seq::<char>::empty());
        assert((k, v) == p);
    } else {
        assert(s.len() == k.len() + 1 + v.len());
        assert(s[0] == k[0]);
        assert(s[s.len() - 1] == v[v.len() - 1]);
        assert(is_b64_char(v[v.len() - 1]));
        assert(!is_space_char(s[0]));
        assert(!is_space_char(s[s.len() - 1]));
        lemma_trim_front_range(s, 0);
        lemma_trim_back_range(s, s.len() as int);
        assert(trim_spec(s) == s);
        assert(s[k.len() as int] == ' ');
        assert(forall|j: int| 0 <= j < k.len() ==> s[j] == k[j] && s[j] != ' ');
        lemma_split_on_at(s, ' ', k.len() as int);
        assert(s.take(k.len() as int) =~= k);
        assert(s.skip(k.len() as int + 1) =~= v);
        assert(forall|j: int| 0 <= j < v.len() ==> v[j] != ' ');
        lemma_split_on_no_sep(v, ' ');
        assert(split_on(s, ' ') =~~= seq![k, v]);
        assert((k, v) == p);
    }
}

proof fn lemma_serialized_pair_no_comma(p: (Seq<char>, Seq<char>))
    requires
        wire_safe_key(p.0),
        wire_safe_value(p.1),
    ensures
        forall|i: int| 0 <= i < serialize_pair_spec(p).len() ==> serialize_pair_spec(p)[i] != ',',
{
    let s = serialize_pair_spec(p);
    assert forall|i: int| 0 <= i < s.len() implies s[i] != ',' by {
        if p.1.len() == 0 {
            assert(s[i] == p.0[i]);
        } else {
            if i < p.0.len() {
                assert(s[i] == p.0[i]);
            } else if i == p.0.len() {
                assert(s[i] == ' ');
            } else {
                assert(s[i] == p.1[i - p.0.len() - 1]);
                assert(is_b64_char(s[i]));
            }
        }
    }
}

proof fn lemma_round_trip_rec(pairs: Seq<(Seq<char>, Seq<char>)>, acc: Seq<(Seq<char>, Seq<char>)>)
    requires
        wire_safe(pairs),
        forall|i: int, j: int|
            0 <= i < acc.len() && 0 <= j < pairs.len() ==> (#[trigger] acc[i]).0 != (
            #[trigger] pairs[j]).0,
    ensures
        parse_segments(split_on(serialize_spec(pairs), ','), acc) == Ok::<
            Seq<(Seq<char>, Seq<char>)>,
            MetadataError,
        >(acc + pairs),
    decreases pairs.len(),
{
    reveal_with_fuel(parse_segments, 2);
    if pairs.len() == 0 {
        let s = serialize_spec(pairs);
        assert(s == Seq::<char>::empty());
        assert(split_on(s, ',') == seq![Seq::<char>::empty()]);
        assert(trim_spec(Seq::<char>::empty()) == Seq::<char>::empty());
        assert(seq![Seq::<char>::empty()].drop_first() =~~= Seq::<Seq<char>>::empty());
        assert(acc + pairs =~= acc);
    } else {
        let p0 = pairs[0];
        let rest = pairs.drop_first();
        let s0 = serialize_pair_spec(p0);
        assert(wire_safe_key(p0.0) && wire_safe_value(p0.1));
        lemma_parse_serialized_pair(p0);
        lemma_serialized_pair_no_comma(p0);
        assert(forall|j: int| 0 <= j < rest.len() ==> rest[j] == pairs[j + 1]);
        assert(forall|i: int| 0 <= i < acc.len() ==> (#[trigger] acc[i]).0 != p0.0);
        lemma_upsert_fresh(acc, p0.0, p0.1);
        let acc2 = acc.push((p0.0, p0.1));
        if pairs.len() == 1 {
            let s = serialize_spec(pairs);
            assert(s == s0);
            lemma_split_on_no_sep(s, ',');
            assert(seq![s].drop_first() =~~= Seq::<Seq<char>>::empty());
            assert(acc2 =~= acc + pairs);
        } else {
            let sr = serialize_spec(rest);
            let s = serialize_spec(pairs);
            assert(s == s0 + seq![','] + sr);
            assert(s[s0.len() as int] == ',');
            assert(forall|j: int| 0 <= j < s0.len() ==> s[j] == s0[j] && s[j] != ',');
            lemma_split_on_at(s, ',', s0.len() as int);
            assert(s.take(s0.len() as int) =~= s0);
            assert(s.skip(s0.len() as int + 1) =~= sr);
            assert(wire_safe(rest));
            assert(forall|i: int, j: int|
                0 <= i < acc2.len() && 0 <= j < rest.len() ==> (#[trigger] acc2[i]).0 != (
                #[trigger] rest[j]).0) by {
                assert(forall|j: int| 0 <= j < rest.len() ==> rest[j] == pairs[j + 1]);
                assert(acc2[acc.len() as int] == (p0.0, p0.1));
            }
            lemma_round_trip_rec(rest, acc2);
            assert((seq![s0] + split_on(sr, ',')).drop_first() =~~= split_on(sr, ','));
            assert(acc2 + rest =~= acc + pairs);
        }
    }
}

/// LAW: the metadata codec round-trips. Any pair sequence with distinct,
/// wire-safe keys and base64 values — in particular, what `insert_raw`
/// builds — parses back from its own serialization to exactly itself.
pub proof fn lemma_wire_round_trip(pairs: Seq<(Seq<char>, Seq<char>)>)
    requires
        wire_safe(pairs),
    ensures
        parse_spec(serialize_spec(pairs)) == Ok::<Seq<(Seq<char>, Seq<char>)>, MetadataError>(
            pairs,
        ),
{
    lemma_round_trip_rec(pairs, Seq::<(Seq<char>, Seq<char>)>::empty());
    assert(Seq::<(Seq<char>, Seq<char>)>::empty() + pairs =~= pairs);
}

} // verus!
