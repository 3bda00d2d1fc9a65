//! The framing codec: a segment count, a table of segment lengths in words,
//! padding to a word boundary, then the segments themselves.
use byteorder::{ByteOrder, LittleEndian};
use vstd::prelude::*;
use vstd::slice::slice_subrange;

verus! {

/// Messages hold fewer segments than this.
pub const SEGMENT_LIMIT: usize = 512;

/// The little-endian value of the four bytes of `s` from `at` on.
pub open spec fn le_u32_at(s: Seq<u8>, at: int) -> int {
    s[at] as int + 256 * (s[at + 1] as int) + 65536 * (s[at + 2] as int) + 16777216 * (
    s[at + 3] as int)
}

/// The four little-endian bytes of `v`.
pub open spec fn u32_le_bytes(v: u32) -> Seq<u8> {
    seq![(v % 256) as u8, ((v / 256) % 256) as u8, ((v / 65536) % 256) as u8, (v / 16777216) as u8]
}

/// The segment count that a header declares: its first word plus one,
/// wrapping as a 32-bit value.
pub open spec fn declared_segment_count(s: Seq<u8>) -> int {
    (le_u32_at(s, 0) + 1) % 0x1_0000_0000
}

/// Bytes that follow the count word before the segments start: a length
/// per segment, and four bytes of padding when the count is even.
pub open spec fn table_bytes(count: int) -> int {
    if count % 2 == 0 {
        4 * count + 4
    } else {
        4 * count
    }
}

/// The word length of segment `i` in a segment table.
pub open spec fn segment_len(table: Seq<u8>, i: int) -> int {
    le_u32_at(table, 4 * i)
}

/// Words taken by the first `i` segments of a segment table.
pub open spec fn words_before(table: Seq<u8>, i: nat) -> int
    decreases i,
{
    if i == 0 {
        0
    } else {
        words_before(table, (i - 1) as nat) + segment_len(table, i - 1)
    }
}

/// Limits applied while decoding a message.
#[derive(Debug, Clone, Copy)]
pub struct ReaderOptions {
    /// Most words a message may hold; `None` sets no bound.
    pub traversal_limit_in_words: Option<usize>,
    /// Deepest nesting that a reader of the message accepts.
    pub nesting_limit: i32,
}

/// Whether `words` words stay within the traversal limit of `options`.
pub open spec fn within_limit(words: int, options: ReaderOptions) -> bool {
    match options.traversal_limit_in_words {
        Some(limit) => words <= limit,
        None => true,
    }
}

/// Whether a message of `words` words may be read under `options`: within
/// the traversal limit, and small enough that its bytes can be addressed.
pub open spec fn accepts_words(words: int, options: ReaderOptions) -> bool {
    within_limit(words, options) && 8 * words <= usize::MAX
}

/// Why a message could not be decoded.
#[derive(Debug, Clone, Copy, PartialEq, Eq, Structural)]
pub enum DecodeError {
    /// The header declared no segment at all.
    TooFewSegments,
    /// The header declared this many segments, which is too many.
    TooManySegments(usize),
    /// The segment table adds up to this many words, beyond the traversal limit.
    TooLarge(u64),
}

/// Relies on byteorder's `LittleEndian::read_u32`: the value of the first four
/// bytes, least significant first.
#[verifier::external_body]
fn read_u32_le(b: &[u8]) -> (r: u32)
    requires
        b@.len() >= 4,
    ensures
        r as int == le_u32_at(b@, 0),
{
    <LittleEndian as ByteOrder>::read_u32(b)
}

/// Relies on byteorder's `LittleEndian::write_u32`: the four bytes of `v`,
/// least significant first.
#[verifier::external_body]
fn push_u32_le(out: &mut Vec<u8>, v: u32)
    ensures
        final(out)@ == old(out)@ + u32_le_bytes(v),
{
    let mut b = [0u8; 4];
    <LittleEndian as ByteOrder>::write_u32(&mut b, v);
    out.extend_from_slice(&b);
}

/// Drops the first `n` bytes of `buf`, handing them back.
fn consume(buf: &mut Vec<u8>, n: usize) -> (head: Vec<u8>)
    requires
        n <= old(buf)@.len(),
    ensures
        head@ == old(buf)@.subrange(0, n as int),
        final(buf)@ == old(buf)@.subrange(n as int, old(buf)@.len() as int),
{
    let mut rest = buf.split_off(n);
    core::mem::swap(buf, &mut rest);
    rest
}

/// Reads the segment count from the first four bytes of `buf` and consumes
/// them, whether the count is accepted or not.
pub fn read_segment_count(buf: &mut Vec<u8>) -> (r: Result<usize, DecodeError>)
    requires
        old(buf)@.len() >= 4,
    ensures
        final(buf)@ == old(buf)@.subrange(4, old(buf)@.len() as int),
        ({
            let c = declared_segment_count(old(buf)@);
            match r {
                Ok(n) => 1 <= c < SEGMENT_LIMIT && n == c,
                Err(e) => (c == 0 && e == DecodeError::TooFewSegments) || (c >= SEGMENT_LIMIT
                    && e == DecodeError::TooManySegments(c as usize)),
            }
        }),
{
    let raw = read_u32_le(slice_subrange(buf.as_slice(), 0, 4));
    let count = raw.wrapping_add(1) as usize;
    let _ = consume(buf, 4);
    if count >= SEGMENT_LIMIT {
        Err(DecodeError::TooManySegments(count))
    } else if count == 0 {
        Err(DecodeError::TooFewSegments)
    } else {
        Ok(count)
    }
}

/// Words taken by segments never shrink as more of them are counted.
pub proof fn lemma_words_before_monotone(table: Seq<u8>, i: nat, j: nat)
    requires
        i <= j,
        4 * j <= table.len(),
    ensures
        words_before(table, i) <= words_before(table, j),
    decreases j,
{
    if i < j {
        lemma_words_before_monotone(table, i, (j - 1) as nat);
    }
}

/// Whether every word range of `slices` lies within `total_words`.
pub open spec fn slices_within(slices: Seq<(usize, usize)>, total_words: int) -> bool {
    forall|i: int| 0 <= i < slices.len() ==> #[trigger] slices[i].0 <= slices[i].1 <= total_words
}

/// Whether `slices` are the word ranges, in order, that a segment table of
/// `count` entries gives.
pub open spec fn slices_match(slices: Seq<(usize, usize)>, table: Seq<u8>, count: nat) -> bool {
    &&& slices.len() == count
    &&& forall|i: int|
        #![trigger slices[i]]
        0 <= i < count ==> slices[i].0 == words_before(table, i as nat) && slices[i].1
            == words_before(table, (i + 1) as nat)
}

/// Reads a table of `segment_count` segment lengths and the padding after
/// it from `buf`, consuming them whether the message is accepted or not.
/// On success it returns the total word count and the word range of each
/// segment.
pub fn read_segment_table(buf: &mut Vec<u8>, segment_count: usize, options: ReaderOptions) -> (r:
    Result<(usize, Vec<(usize, usize)>), DecodeError>)
    requires
        1 <= segment_count < SEGMENT_LIMIT,
        old(buf)@.len() >= table_bytes(segment_count as int),
    ensures
        final(buf)@ == old(buf)@.subrange(
            table_bytes(segment_count as int),
            old(buf)@.len() as int,
        ),
        ({
            let t = old(buf)@;
            let total = words_before(t, segment_count as nat);
            match r {
                Ok((total_words, slices)) => {
                    &&& accepts_words(total, options)
                    &&& total_words == total
                    &&& slices@.len() == segment_count
                    &&& slices_match(slices@, t, segment_count as nat)
                    &&& slices_within(slices@, total)
                },
                Err(e) => !accepts_words(total, options) && e == DecodeError::TooLarge(
                    total as u64,
                ),
            }
        }),
{
    let ghost t = buf@;
    let mut words: Vec<(u64, u64)> = Vec::with_capacity(segment_count);
    let mut total: u64 = 0;
    let mut i: usize = 0;
    while i < segment_count
        invariant
            buf@ == t,
            i <= segment_count < SEGMENT_LIMIT,
            t.len() >= table_bytes(segment_count as int),
            total == words_before(t, i as nat),
            total <= i * 0xffff_ffff,
            words@.len() == i,
            forall|j: int|
                0 <= j < i ==> #[trigger] words@[j].0 == words_before(t, j as nat) && words@[j].1
                    == words_before(t, (j + 1) as nat),
        decreases segment_count - i,
    {
        let len = read_u32_le(slice_subrange(buf.as_slice(), 4 * i, 4 * i + 4));
        assert(len as int == segment_len(t, i as int));
        words.push((total, total + len as u64));
        total = total + len as u64;
        i = i + 1;
    }
    let pad: usize = if segment_count % 2 == 0 { 4 } else { 0 };
    let _ = consume(buf, 4 * segment_count + pad);
    let fits = match options.traversal_limit_in_words {
        Some(limit) => total <= limit as u64,
        None => true,
    };
    if !fits || total > (usize::MAX / 8) as u64 {
        return Err(DecodeError::TooLarge(total));
    }
    let mut slices: Vec<(usize, usize)> = Vec::with_capacity(segment_count);
    let mut k: usize = 0;
    while k < segment_count
        invariant
            k <= segment_count == words@.len(),
            total == words_before(t, segment_count as nat),
            8 * total <= usize::MAX,
            4 * segment_count <= t.len(),
            slices@.len() == k,
            slices_within(slices@, total as int),
            forall|j: int|
                0 <= j < segment_count ==> #[trigger] words@[j].0 == words_before(t, j as nat)
                    && words@[j].1 == words_before(t, (j + 1) as nat),
            forall|j: int|
                0 <= j < k ==> #[trigger] slices@[j].0 == words_before(t, j as nat) && slices@[j].1
                    == words_before(t, (j + 1) as nat),
        decreases segment_count - k,
    {
        let (a, b) = words[k];
        proof {
            lemma_words_before_monotone(t, k as nat, (k + 1) as nat);
            lemma_words_before_monotone(t, (k + 1) as nat, segment_count as nat);
        }
        slices.push((a as usize, b as usize));
        k = k + 1;
    }
    Ok((total as usize, slices))
}

/// A decoded message: one owned run of words and the word range of each of
/// its segments within it.
pub struct OwnedSegments {
    segment_slices: Vec<(usize, usize)>,
    owned_space: Vec<u8>,
}

impl OwnedSegments {
    /// The word range of each segment, in order.
    pub closed spec fn slices(&self) -> Seq<(usize, usize)> {
        self.segment_slices@
    }

    /// The bytes of all segments.
    pub closed spec fn space(&self) -> Seq<u8> {
        self.owned_space@
    }

    #[verifier::type_invariant]
    spec fn inv(&self) -> bool {
        slices_within(self.segment_slices@, (self.owned_space@.len() / 8) as int)
            && self.owned_space@.len() % 8 == 0
    }

    /// The bytes of segment `i`.
    pub open spec fn segment(&self, i: int) -> Seq<u8> {
        self.space().subrange(8 * self.slices()[i].0, 8 * self.slices()[i].1)
    }

    /// Number of segments.
    pub fn segment_count(&self) -> (r: usize)
        ensures
            r == self.slices().len(),
    {
        self.segment_slices.len()
    }

    /// The bytes of segment `id`, or `None` past the last segment.
    pub fn get_segment(&self, id: u32) -> (r: Option<&[u8]>)
        ensures
            match r {
                Some(s) => id < self.slices().len() && s@ == self.segment(id as int),
                None => id >= self.slices().len(),
            },
    {
        proof {
            use_type_invariant(self);
        }
        if (id as usize) < self.segment_slices.len() {
            let (a, b) = self.segment_slices[id as usize];
            let len = self.owned_space.len();
            assert(a <= b <= len / 8);
            assert(8 * (b as int) <= len) by (nonlinear_arith)
                requires
                    b <= len / 8,
            ;
            assert(8 * (a as int) <= 8 * (b as int));
            Some(slice_subrange(self.owned_space.as_slice(), 8 * a, 8 * b))
        } else {
            None
        }
    }
}

/// Takes the `total_words` words of a message's segments out of `buf`.
pub fn read_segments(buf: &mut Vec<u8>, total_words: usize, segment_slices: Vec<(usize, usize)>) -> (r:
    OwnedSegments)
    requires
        8 * total_words <= old(buf)@.len(),
        slices_within(segment_slices@, total_words as int),
    ensures
        r.slices() == segment_slices@,
        r.space() == old(buf)@.subrange(0, 8 * total_words),
        final(buf)@ == old(buf)@.subrange(8 * total_words, old(buf)@.len() as int),
{
    let available = buf.len();
    assert(8 * total_words <= available);
    let owned_space = consume(buf, 8 * total_words);
    assert(owned_space@.len() / 8 == total_words);
    OwnedSegments { segment_slices, owned_space }
}

/// The bytes of each segment, in order.
pub open spec fn segments_view(segments: Seq<Vec<u8>>) -> Seq<Seq<u8>> {
    segments.map_values(|s: Vec<u8>| s@)
}

/// Whether `segs` can be framed: at least one segment and a count that fits
/// the count word, each segment whole words, and each word length fitting a
/// table entry.
pub open spec fn framable(segs: Seq<Seq<u8>>) -> bool {
    &&& 1 <= segs.len() <= 0x1_0000_0000
    &&& forall|i: int|
        0 <= i < segs.len() ==> #[trigger] segs[i].len() % 8 == 0 && segs[i].len() / 8
            <= u32::MAX
}

/// The segment table of `segs`: the word length of each segment.
pub open spec fn length_table(segs: Seq<Seq<u8>>) -> Seq<u8>
    decreases segs.len(),
{
    if segs.len() == 0 {
        seq![]
    } else {
        length_table(segs.drop_last()) + u32_le_bytes((segs.last().len() / 8) as u32)
    }
}

/// The segments laid end to end.
pub open spec fn concat(segs: Seq<Seq<u8>>) -> Seq<u8>
    decreases segs.len(),
{
    if segs.len() == 0 {
        seq![]
    } else {
        concat(segs.drop_last()) + segs.last()
    }
}

/// The padding that brings a header of `count` segments to a word boundary.
pub open spec fn padding(count: int) -> Seq<u8> {
    if count % 2 == 0 {
        seq![0u8, 0u8, 0u8, 0u8]
    } else {
        seq![]
    }
}

/// The wire form of a message made of `segs`.
pub open spec fn encode(segs: Seq<Seq<u8>>) -> Seq<u8> {
    u32_le_bytes((segs.len() - 1) as u32) + length_table(segs) + padding(segs.len() as int)
        + concat(segs)
}

/// Appends the wire form of the message made of `segments` to `out`.
pub fn write_message(out: &mut Vec<u8>, segments: &Vec<Vec<u8>>)
    requires
        framable(segments_view(segments@)),
    ensures
        final(out)@ == old(out)@ + encode(segments_view(segments@)),
{
    let ghost segs = segments_view(segments@);
    let ghost start = out@;
    let n = segments.len();
    push_u32_le(out, (n - 1) as u32);
    let mut i: usize = 0;
    while i < n
        invariant
            n == segments@.len() == segs.len(),
            segs == segments_view(segments@),
            framable(segs),
            i <= n,
            out@ == start + u32_le_bytes((n - 1) as u32) + length_table(segs.take(i as int)),
        decreases n - i,
    {
        assert(segs[i as int].len() % 8 == 0);
        push_u32_le(out, (segments[i].len() / 8) as u32);
        assert(segs.take(i + 1).drop_last() =~= segs.take(i as int));
        i = i + 1;
    }
    assert(segs.take(n as int) =~= segs);
    if n % 2 == 0 {
        push_u32_le(out, 0);
        assert(u32_le_bytes(0) =~= padding(n as int));
    } else {
        assert(padding(n as int) =~= seq![]);
    }
    let ghost header = out@;
    let mut j: usize = 0;
    while j < n
        invariant
            n == segments@.len() == segs.len(),
            segs == segments_view(segments@),
            j <= n,
            out@ == header + concat(segs.take(j as int)),
        decreases n - j,
    {
        out.extend_from_slice(segments[j].as_slice());
        assert(segs.take(j + 1).drop_last() =~= segs.take(j as int));
        j = j + 1;
    }
    assert(segs.take(n as int) =~= segs);
}

/// The segments that the wire bytes `s` decode to: the count word, the
/// segment table and its padding, then each segment's words.
pub open spec fn decoded(s: Seq<u8>) -> Seq<Seq<u8>> {
    let count = declared_segment_count(s);
    let table = s.subrange(4, s.len() as int);
    let data = table.subrange(table_bytes(count), table.len() as int);
    Seq::new(
        count as nat,
        |i: int|
            data.subrange(
                8 * words_before(table, i as nat),
                8 * words_before(table, (i + 1) as nat),
            ),
    )
}

proof fn lemma_u32_le_round_trip(v: u32)
    ensures
        le_u32_at(u32_le_bytes(v), 0) == v,
{
    let b = u32_le_bytes(v);
    assert(b[0] as int == v % 256);
    assert(b[1] as int == (v / 256) % 256);
    assert(b[2] as int == (v / 65536) % 256);
    assert(b[3] as int == v / 16777216);
}

proof fn lemma_length_table(segs: Seq<Seq<u8>>, rest: Seq<u8>, i: int)
    requires
        0 <= i < segs.len(),
    ensures
        length_table(segs).len() == 4 * segs.len(),
        le_u32_at(length_table(segs) + rest, 4 * i) == (segs[i].len() / 8) as u32,
    decreases segs.len(),
{
    let n = segs.len() - 1;
    let last = u32_le_bytes((segs.last().len() / 8) as u32);
    lemma_length_table_len(segs);
    if i < n {
        lemma_length_table(segs.drop_last(), last + rest, i);
        assert(length_table(segs) + rest =~= length_table(segs.drop_last()) + (last + rest));
    } else {
        lemma_length_table_len(segs.drop_last());
        lemma_u32_le_round_trip((segs.last().len() / 8) as u32);
        let whole = length_table(segs) + rest;
        assert(whole.subrange(4 * i, 4 * i + 4) =~= last);
        assert(whole[4 * i] == last[0]);
        assert(whole[4 * i + 1] == last[1]);
        assert(whole[4 * i + 2] == last[2]);
        assert(whole[4 * i + 3] == last[3]);
    }
}

proof fn lemma_length_table_len(segs: Seq<Seq<u8>>)
    ensures
        length_table(segs).len() == 4 * segs.len(),
    decreases segs.len(),
{
    if segs.len() > 0 {
        lemma_length_table_len(segs.drop_last());
    }
}

proof fn lemma_concat_prefix(segs: Seq<Seq<u8>>, k: int)
    requires
        0 <= k <= segs.len(),
    ensures
        concat(segs.take(k)).len() <= concat(segs).len(),
        concat(segs).subrange(0, concat(segs.take(k)).len() as int) == concat(segs.take(k)),
    decreases segs.len(),
{
    if k == segs.len() {
        assert(segs.take(k) =~= segs);
        assert(concat(segs).subrange(0, concat(segs).len() as int) =~= concat(segs));
    } else {
        let init = segs.drop_last();
        lemma_concat_prefix(init, k);
        assert(init.take(k) =~= segs.take(k));
        assert(concat(segs).subrange(0, concat(segs.take(k)).len() as int) =~= concat(
            init,
        ).subrange(0, concat(segs.take(k)).len() as int));
    }
}

proof fn lemma_words_are_bytes(segs: Seq<Seq<u8>>, table: Seq<u8>, k: nat)
    requires
        framable(segs),
        k <= segs.len(),
        forall|i: int| 0 <= i < segs.len() ==> #[trigger] segment_len(table, i) == segs[i].len() / 8,
    ensures
        8 * words_before(table, k) == concat(segs.take(k as int)).len(),
    decreases k,
{
    if k > 0 {
        lemma_words_are_bytes(segs, table, (k - 1) as nat);
        assert(segs.take(k as int).drop_last() =~= segs.take(k - 1));
        let l = segs[k - 1].len();
        assert(l % 8 == 0);
        assert(8 * (l / 8) == l);
    }
}

/// Decoding the wire form of a message gives back its segments, for every
/// segment count the decoder accepts and every choice of segment lengths.
pub proof fn lemma_round_trip(segs: Seq<Seq<u8>>)
    requires
        framable(segs),
        segs.len() < SEGMENT_LIMIT,
    ensures
        declared_segment_count(encode(segs)) == segs.len(),
        decoded(encode(segs)) == segs,
        8 * words_before(encode(segs).subrange(4, encode(segs).len() as int), segs.len())
            == concat(segs).len(),
        encode(segs).len() == 4 + table_bytes(segs.len() as int) + concat(segs).len(),
{
    let n = segs.len();
    let s = encode(segs);
    let head = u32_le_bytes((n - 1) as u32);
    lemma_u32_le_round_trip((n - 1) as u32);
    lemma_length_table_len(segs);
    assert(s[0] == head[0] && s[1] == head[1] && s[2] == head[2] && s[3] == head[3]);
    assert(declared_segment_count(s) == n);
    let table = s.subrange(4, s.len() as int);
    let data = concat(segs);
    let pad = padding(n as int);
    assert(table =~= length_table(segs) + (pad + data));
    assert forall|i: int| 0 <= i < n implies #[trigger] segment_len(table, i) == segs[i].len()
        / 8 by {
        lemma_length_table(segs, pad + data, i);
    }
    assert(table.subrange(table_bytes(n as int), table.len() as int) =~= data);
    assert forall|i: int| 0 <= i < n implies #[trigger] decoded(s)[i] == segs[i] by {
        lemma_words_are_bytes(segs, table, i as nat);
        lemma_words_are_bytes(segs, table, (i + 1) as nat);
        lemma_concat_prefix(segs, i);
        lemma_concat_prefix(segs, i + 1);
        let a = concat(segs.take(i));
        let b = concat(segs.take(i + 1));
        assert(segs.take(i + 1).drop_last() =~= segs.take(i));
        assert(b =~= a + segs[i]);
        assert(data.subrange(a.len() as int, b.len() as int) =~= b.subrange(
            a.len() as int,
            b.len() as int,
        ));
        assert(b.subrange(a.len() as int, b.len() as int) =~= segs[i]);
    }
    assert(decoded(s) =~= segs);
    lemma_words_are_bytes(segs, table, n);
    assert(segs.take(n as int) =~= segs);
}

proof fn lemma_words_before_prefix(a: Seq<u8>, b: Seq<u8>, i: nat)
    requires
        4 * i <= a.len(),
    ensures
        words_before(a + b, i) == words_before(a, i),
    decreases i,
{
    if i > 0 {
        lemma_words_before_prefix(a, b, (i - 1) as nat);
        let k = 4 * (i - 1);
        assert((a + b)[k] == a[k] && (a + b)[k + 1] == a[k + 1]);
        assert((a + b)[k + 2] == a[k + 2] && (a + b)[k + 3] == a[k + 3]);
    }
}

/// Parsing what `write_message` framed gives the message back, and leaves
/// what follows it: on the wire form of `segs` followed by any bytes `rest`,
/// `read_segment_count` accepts the count `segs.len()`, `read_segment_table`
/// finds the total of their words, the bytes left after the segments are
/// `rest`, and a message that `read_segments` builds from the slices and
/// bytes those stages leave holds `segs`, segment for segment.
pub proof fn lemma_parse_serialized(segs: Seq<Seq<u8>>, rest: Seq<u8>, m: OwnedSegments)
    requires
        framable(segs),
        segs.len() < SEGMENT_LIMIT,
        ({
            let s = encode(segs) + rest;
            let t = s.subrange(4, s.len() as int);
            let body = t.subrange(table_bytes(segs.len() as int), t.len() as int);
            &&& slices_match(m.slices(), t, segs.len())
            &&& m.space() == body.subrange(0, 8 * words_before(t, segs.len()))
        }),
    ensures
        ({
            let s = encode(segs) + rest;
            let t = s.subrange(4, s.len() as int);
            let body = t.subrange(table_bytes(segs.len() as int), t.len() as int);
            &&& declared_segment_count(s) == segs.len()
            &&& 8 * words_before(t, segs.len()) == concat(segs).len()
            &&& body.subrange(8 * words_before(t, segs.len()), body.len() as int) == rest
        }),
        m.slices().len() == segs.len(),
        forall|i: int| 0 <= i < segs.len() ==> #[trigger] m.segment(i) == segs[i],
{
    let f = encode(segs);
    let s = f + rest;
    let n = segs.len();
    let tf = f.subrange(4, f.len() as int);
    let t = s.subrange(4, s.len() as int);
    let body = t.subrange(table_bytes(n as int), t.len() as int);
    let bodyf = tf.subrange(table_bytes(n as int), tf.len() as int);
    lemma_round_trip(segs);
    assert(s[0] == f[0] && s[1] == f[1] && s[2] == f[2] && s[3] == f[3]);
    assert(t =~= tf + rest);
    assert(body =~= bodyf + rest);
    assert forall|i: nat| i <= n implies #[trigger] words_before(t, i) == words_before(tf, i) by {
        lemma_words_before_prefix(tf, rest, i);
    }
    let total = words_before(t, n);
    assert(bodyf.len() == concat(segs).len());
    assert(m.space() =~= bodyf);
    assert(body.subrange(8 * total, body.len() as int) =~= rest);
    assert forall|i: int| 0 <= i < n implies #[trigger] m.segment(i) == segs[i] by {
        assert(decoded(f)[i] == segs[i]);
        assert(words_before(t, i as nat) == words_before(tf, i as nat));
        assert(words_before(t, (i + 1) as nat) == words_before(tf, (i + 1) as nat));
        assert(m.slices()[i].0 == words_before(t, i as nat));
    }
}

/// A handle on a connection's outgoing bytes, through which messages are
/// framed and sent.
pub struct MessageWriter<'a>(pub &'a mut Vec<u8>);

impl<'a> MessageWriter<'a> {
    /// Frames the message made of `segments` and appends it to the
    /// outgoing bytes.
    pub fn write(&mut self, segments: &Vec<Vec<u8>>)
        requires
            framable(segments_view(segments@)),
        ensures
            (*final(self).0)@ == (*old(self).0)@ + encode(segments_view(segments@)),
    {
        write_message(self.0, segments);
    }
}

} // verus!
