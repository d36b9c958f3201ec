//! Accumulates raw bytes and yields only complete UTF-8 text.
//!
//! PTY and SSH channels deliver data in arbitrary chunks that can split
//! multi-byte UTF-8 sequences at buffer boundaries. [`Utf8Accumulator`]
//! holds back any trailing partial sequence and prepends it to the next
//! chunk, so the output is always cleanly split on character boundaries.
use vstd::prelude::*;
use vstd::utf8::*;

verus! {

/// The characters std's `String::from_utf8_lossy` produces from `bytes`:
/// the decoded text, with each invalid sequence replaced by U+FFFD.
pub uninterp spec fn utf8_lossy(bytes: Seq<u8>) -> Seq<char>;

/// std `String::from_utf8_lossy`, made owned.
///
/// The contract names the result `utf8_lossy(bytes)` and states the one fact
/// std's documentation gives plainly: a valid UTF-8 input is decoded as is.
/// How invalid sequences are replaced is left to the name.
#[verifier::external_body]
pub(crate) fn decode_utf8_lossy(bytes: &[u8]) -> (s: String)
    ensures
        s@ == utf8_lossy(bytes@),
        valid_utf8(bytes@) ==> s@ == decode_utf8(bytes@),
{
    String::from_utf8_lossy(bytes).into_owned()
}

/// The length of the sequence that a byte announces when it is a UTF-8
/// leading byte of a multi-byte sequence, and 0 for any other byte.
pub open spec fn announced_len(b: u8) -> nat {
    if 0xc0 <= b <= 0xdf {
        2
    } else if 0xe0 <= b <= 0xef {
        3
    } else if 0xf0 <= b <= 0xf7 {
        4
    } else {
        0
    }
}

/// Whether `b` is a UTF-8 continuation byte (`0x80..=0xBF`).
pub open spec fn is_continuation(b: u8) -> bool {
    0x80 <= b <= 0xbf
}

/// Scans `buf` backwards from its `back`-th last byte (up to the 3rd last)
/// over continuation bytes to the byte before them: when that is a leading
/// byte announcing more bytes than remain, the number of trailing bytes
/// that form the incomplete sequence; otherwise (a complete sequence, an
/// ASCII byte, a byte that never starts a sequence, or more than three
/// bytes scanned) 0.
pub open spec fn scan_back(buf: Seq<u8>, back: nat) -> nat
    decreases 4 - back,
{
    if back == 0 || back > 3 || back > buf.len() {
        0
    } else if is_continuation(buf[buf.len() - back]) {
        scan_back(buf, back + 1)
    } else if announced_len(buf[buf.len() - back]) > back {
        back
    } else {
        0
    }
}

/// The number of bytes at the tail of `buf` that form an incomplete UTF-8
/// sequence.
pub open spec fn trailing_partial(buf: Seq<u8>) -> nat {
    scan_back(buf, 1)
}

/// Count bytes at the tail of `buf` that form an incomplete UTF-8 sequence.
///
/// Scans backwards over continuation bytes (up to 3 bytes) to a lead byte
/// whose expected multi-byte sequence extends past the end of the buffer;
/// any other byte ends the scan with no partial sequence.
pub fn trailing_partial_utf8(buf: &[u8]) -> (n: usize)
    ensures
        n == trailing_partial(buf@),
        n <= 3,
        n <= buf@.len(),
{
    let len = buf.len();
    let limit: usize = if len < 3 {
        len
    } else {
        3
    };
    let mut back: usize = 1;
    while back <= limit
        invariant
            1 <= back <= 4,
            len == buf@.len(),
            limit == if len < 3 {
                len
            } else {
                3
            },
            back <= limit + 1,
            trailing_partial(buf@) == scan_back(buf@, back as nat),
        decreases limit + 1 - back,
    {
        let b = buf[len - back];
        if 0x80 <= b && b <= 0xbf {
            back += 1;
            continue;
        }
        let seq_len: usize = if 0xc0 <= b && b <= 0xdf {
            2
        } else if 0xe0 <= b && b <= 0xef {
            3
        } else if 0xf0 <= b && b <= 0xf7 {
            4
        } else {
            0
        };
        if seq_len > back {
            return back;
        }
        return 0;
    }
    0
}

/// The text std's lossy decoding gives for `bytes`: the decoded characters
/// of valid UTF-8, else `utf8_lossy(bytes)`.
pub open spec fn lossy_text(bytes: Seq<u8>) -> Seq<char> {
    if valid_utf8(bytes) {
        decode_utf8(bytes)
    } else {
        utf8_lossy(bytes)
    }
}

/// What one `push` produces from the held bytes `pending` and a new chunk
/// `data`: the text emitted and the bytes held back afterwards.
pub open spec fn push_result(pending: Seq<u8>, data: Seq<u8>) -> (Seq<char>, Seq<u8>) {
    let all = pending + data;
    let emit = all.len() - trailing_partial(all);
    (
        if emit == 0 {
            Seq::empty()
        } else {
            lossy_text(all.take(emit))
        },
        all.skip(emit),
    )
}

/// Buffers raw bytes and emits complete UTF-8, holding partial trailing
/// multi-byte sequences for the next push.
pub struct Utf8Accumulator {
    pending: Vec<u8>,
    /// The chunks pushed so far, in order.
    chunks: Ghost<Seq<Seq<u8>>>,
    /// The text returned so far, in order.
    emitted: Ghost<Seq<char>>,
}

impl View for Utf8Accumulator {
    type V = Seq<u8>;

    /// The bytes held back for the next push.
    closed spec fn view(&self) -> Seq<u8> {
        self.pending@
    }
}

impl Utf8Accumulator {
    /// Every byte pushed so far, in order.
    pub closed spec fn fed(&self) -> Seq<u8> {
        concat_chunks(self.chunks@)
    }

    /// All the text returned by `push` so far, in order.
    pub closed spec fn emitted(&self) -> Seq<char> {
        self.emitted@
    }

    /// What was returned and what is held are what pushing the same chunks
    /// into a fresh accumulator gives.
    pub closed spec fn wf(&self) -> bool {
        stream_result(Seq::empty(), self.chunks@) == (self.emitted@, self.pending@)
    }

    /// A new accumulator holding no bytes.
    pub fn new() -> (acc: Self)
        ensures
            acc.wf(),
            acc@ == Seq::<u8>::empty(),
            acc.fed() == Seq::<u8>::empty(),
            acc.emitted() == Seq::<char>::empty(),
    {
        Self { pending: Vec::new(), chunks: Ghost(Seq::empty()), emitted: Ghost(Seq::empty()) }
    }

    /// Append `data` and return all complete UTF-8 text.
    ///
    /// Any incomplete multi-byte sequence at the very end is kept internally
    /// and will be prepended to the next call.  Invalid bytes in the middle
    /// are still replaced with U+FFFD (same as `from_utf8_lossy`).
    pub fn push(&mut self, data: &[u8]) -> (text: String)
        requires
            old(self).wf(),
        ensures
            final(self).wf(),
            (text@, final(self)@) == push_result(old(self)@, data@),
            final(self)@.len() <= 3,
            final(self).fed() == old(self).fed() + data@,
            final(self).emitted() == old(self).emitted() + text@,
    {
        proof {
            lemma_stream_push(Seq::empty(), self.chunks@, data@);
            lemma_concat_push(self.chunks@, data@);
        }
        append_bytes(&mut self.pending, data);
        let trailing = trailing_partial_utf8(self.pending.as_slice());
        let emit_end = self.pending.len() - trailing;
        let ghost all = self.pending@;
        if emit_end == 0 {
            assert(all.skip(0) =~= all);
            proof {
                self.chunks = Ghost(self.chunks@.push(data@));
                assert(self.emitted@ + Seq::<char>::empty() =~= self.emitted@);
            }
            return String::new();
        }
        let head = take_prefix(self.pending.as_slice(), emit_end);
        let text = decode_utf8_lossy(head.as_slice());
        let rest = take_suffix(self.pending.as_slice(), emit_end);
        self.pending = rest;
        proof {
            self.chunks = Ghost(self.chunks@.push(data@));
            self.emitted = Ghost(self.emitted@ + text@);
        }
        text
    }
}

// ---------------------------------------------------------------------------
// Streaming: splitting valid UTF-8 anywhere loses nothing
// ---------------------------------------------------------------------------

/// The bytes of all chunks, in order.
pub open spec fn concat_chunks(chunks: Seq<Seq<u8>>) -> Seq<u8>
    decreases chunks.len(),
{
    if chunks.len() == 0 {
        Seq::empty()
    } else {
        chunks[0] + concat_chunks(chunks.drop_first())
    }
}

/// Pushing `chunks` one after another into an accumulator holding
/// `pending`: all the text emitted, and the bytes held at the end.
pub open spec fn stream_result(pending: Seq<u8>, chunks: Seq<Seq<u8>>) -> (Seq<char>, Seq<u8>)
    decreases chunks.len(),
{
    if chunks.len() == 0 {
        (Seq::empty(), pending)
    } else {
        let (text, held) = push_result(pending, chunks[0]);
        let (rest_text, rest_held) = stream_result(held, chunks.drop_first());
        (text + rest_text, rest_held)
    }
}

/// The bytes of `chunks` and then `c` are those of `chunks.push(c)`.
proof fn lemma_concat_push(chunks: Seq<Seq<u8>>, c: Seq<u8>)
    ensures
        concat_chunks(chunks.push(c)) == concat_chunks(chunks) + c,
    decreases chunks.len(),
{
    let pc = chunks.push(c);
    assert(pc.len() > 0);
    if chunks.len() == 0 {
        assert(pc.drop_first() =~= Seq::<Seq<u8>>::empty());
        assert(pc[0] == c);
        assert(concat_chunks(pc.drop_first()) == Seq::<u8>::empty());
        assert(concat_chunks(chunks) == Seq::<u8>::empty());
        assert(c + Seq::<u8>::empty() =~= c);
        assert(Seq::<u8>::empty() + c =~= c);
    } else {
        assert(pc.drop_first() =~= chunks.drop_first().push(c));
        assert(pc[0] == chunks[0]);
        lemma_concat_push(chunks.drop_first(), c);
        assert(chunks[0] + (concat_chunks(chunks.drop_first()) + c) =~= (chunks[0]
            + concat_chunks(chunks.drop_first())) + c);
    }
}

/// Pushing one more chunk after `chunks` continues their stream.
proof fn lemma_stream_push(p: Seq<u8>, chunks: Seq<Seq<u8>>, c: Seq<u8>)
    ensures
        ({
            let (t, h) = stream_result(p, chunks);
            let (t2, h2) = push_result(h, c);
            stream_result(p, chunks.push(c)) == (t + t2, h2)
        }),
    decreases chunks.len(),
{
    let pc = chunks.push(c);
    assert(pc.len() > 0);
    if chunks.len() == 0 {
        assert(pc.drop_first() =~= Seq::<Seq<u8>>::empty());
        assert(pc[0] == c);
        let (t2, h2) = push_result(p, c);
        assert(stream_result(h2, pc.drop_first()) == (Seq::<char>::empty(), h2));
        assert(stream_result(p, chunks) == (Seq::<char>::empty(), p));
        assert(t2 + Seq::<char>::empty() =~= t2);
        assert(Seq::<char>::empty() + t2 =~= t2);
    } else {
        assert(pc.drop_first() =~= chunks.drop_first().push(c));
        assert(pc[0] == chunks[0]);
        let (text, held) = push_result(p, chunks[0]);
        lemma_stream_push(held, chunks.drop_first(), c);
        let (rt, rh) = stream_result(held, chunks.drop_first());
        let (t2, h2) = push_result(rh, c);
        assert(text + (rt + t2) =~= (text + rt) + t2);
    }
}

proof fn lemma_scan_back_range(buf: Seq<u8>, back: nat)
    requires
        back >= 1,
    ensures
        scan_back(buf, back) == 0 || (back <= scan_back(buf, back) <= 3 && scan_back(buf, back)
            <= buf.len() && announced_len(buf[buf.len() - scan_back(buf, back)])
            > scan_back(buf, back)),
    decreases 4 - back,
{
    if back <= 3 && back <= buf.len() && announced_len(buf[buf.len() - back]) == 0 {
        lemma_scan_back_range(buf, back + 1);
    }
}

proof fn lemma_scan_suffix(buf: Seq<u8>, back: nat, t: nat)
    requires
        1 <= back <= t,
        t <= buf.len(),
        scan_back(buf, back) == t,
    ensures
        scan_back(buf.skip(buf.len() - t), back) == t,
    decreases t - back,
{
    let sfx = buf.skip(buf.len() - t);
    lemma_scan_back_range(buf, back);
    assert(sfx[t - back] == buf[buf.len() - back]);
    if announced_len(buf[buf.len() - back]) == 0 {
        lemma_scan_back_range(buf, back + 1);
        lemma_scan_suffix(buf, back + 1, t);
    }
}

/// The character starting at a non-continuation byte `j` of valid UTF-8:
/// its width, the continuation bytes after it, and the byte that follows.
proof fn lemma_scalar_at(b: Seq<u8>, j: int) -> (w: int)
    requires
        valid_utf8(b),
        0 <= j < b.len(),
        !is_continuation_byte(b[j]),
    ensures
        1 <= w <= 4,
        j + w <= b.len(),
        w == 1 ==> announced_len(b[j]) == 0,
        w >= 2 ==> announced_len(b[j]) == w,
        forall|k: int| j < k < j + w ==> is_continuation_byte(#[trigger] b[k]),
        j + w < b.len() ==> !is_continuation_byte(b[j + w]),
{
    is_char_boundary_iff_not_is_continuation_byte(b, j);
    valid_utf8_split(b, j);
    let s = b.subrange(j, b.len() as int);
    assert(valid_first_scalar(s));
    let w = length_of_first_scalar(s);
    assert forall|k: int| j < k < j + w implies is_continuation_byte(#[trigger] b[k]) by {
        assert(b[k] == s[k - j]);
    }
    let rest = pop_first_scalar(s);
    reveal_with_fuel(valid_utf8, 2);
    if j + w < b.len() {
        assert(rest.len() > 0);
        assert(valid_first_scalar(rest));
        assert(rest[0] == b[j + w]);
    }
    w
}

/// Valid UTF-8 never has four continuation bytes in a row.
proof fn lemma_no_four_continuations(b: Seq<u8>, i: int)
    requires
        valid_utf8(b),
        0 <= i,
        i + 3 < b.len(),
    ensures
        !(is_continuation_byte(b[i]) && is_continuation_byte(b[i + 1]) && is_continuation_byte(
            b[i + 2],
        ) && is_continuation_byte(b[i + 3])),
    decreases b.len(),
{
    reveal_with_fuel(valid_utf8, 2);
    let w = length_of_first_scalar(b);
    let rest = pop_first_scalar(b);
    assert(rest.len() == b.len() - w);
    if i >= w {
        lemma_no_four_continuations(rest, i - w);
        assert(rest[i - w] == b[i] && rest[i - w + 1] == b[i + 1] && rest[i - w + 2] == b[i + 2]
            && rest[i - w + 3] == b[i + 3]);
    } else if i > 0 {
        assert(rest.len() > 0);
        assert(valid_first_scalar(rest));
        assert(rest[0] == b[w]);
    }
}

/// Where `push` cuts the bytes of a valid UTF-8 text is a character
/// boundary of the whole text.
proof fn lemma_emit_boundary(b: Seq<u8>, l: int)
    requires
        valid_utf8(b),
        0 <= l <= b.len(),
    ensures
        is_char_boundary(b, l - trailing_partial(b.take(l))),
{
    let all = b.take(l);
    let t = trailing_partial(all);
    lemma_scan_back_range(all, 1);
    is_char_boundary_start_end_of_seq(b);
    if t > 0 {
        let k = l - t;
        assert(all[k] == b[k]);
        is_char_boundary_iff_not_is_continuation_byte(b, k);
    } else if l < b.len() && l > 0 {
        is_char_boundary_iff_not_is_continuation_byte(b, 0);
        is_char_boundary_iff_not_is_continuation_byte(b, l);
        if is_continuation_byte(b[l]) {
            assert(all[l - 1] == b[l - 1]);
            if !is_continuation_byte(b[l - 1]) {
                let w = lemma_scalar_at(b, l - 1);
                assert(scan_back(all, 1) == 1);
            } else {
                assert(l >= 2);
                assert(all[l - 2] == b[l - 2]);
                if !is_continuation_byte(b[l - 2]) {
                    let w = lemma_scalar_at(b, l - 2);
                    assert(w >= 3);
                    assert(scan_back(all, 2) == 2);
                    assert(scan_back(all, 1) == 2);
                } else {
                    assert(l >= 3);
                    assert(all[l - 3] == b[l - 3]);
                    if !is_continuation_byte(b[l - 3]) {
                        let w = lemma_scalar_at(b, l - 3);
                        assert(w == 4);
                        assert(scan_back(all, 3) == 3);
                        assert(scan_back(all, 2) == 3);
                        assert(scan_back(all, 1) == 3);
                    } else {
                        lemma_no_four_continuations(b, l - 3);
                    }
                }
            }
        }
    }
}

/// Bytes held back by `push` (an unfinished character) are never valid
/// UTF-8 on their own.
proof fn lemma_held_bytes_invalid(p: Seq<u8>)
    requires
        p.len() > 0,
        trailing_partial(p) == p.len(),
    ensures
        !valid_utf8(p),
{
    lemma_scan_back_range(p, 1);
    assert(announced_len(p[0]) > p.len());
    if valid_utf8(p) {
        assert(valid_first_scalar(p));
    }
}

proof fn lemma_stream(p: Seq<u8>, chunks: Seq<Seq<u8>>)
    requires
        valid_utf8(p + concat_chunks(chunks)),
        trailing_partial(p) == p.len(),
    ensures
        stream_result(p, chunks) == (decode_utf8(p + concat_chunks(chunks)), Seq::<u8>::empty()),
    decreases chunks.len(),
{
    if chunks.len() == 0 {
        assert(p + concat_chunks(chunks) =~= p);
        if p.len() > 0 {
            lemma_held_bytes_invalid(p);
        }
        assert(p =~= Seq::<u8>::empty());
    } else {
        let c = chunks[0];
        let rest = chunks.drop_first();
        let all = p + c;
        let b = p + concat_chunks(chunks);
        assert(b =~= all + concat_chunks(rest));
        let l = all.len() as int;
        assert(b.take(l) =~= all);
        let t = trailing_partial(all);
        lemma_scan_back_range(all, 1);
        let k = l - t;
        lemma_emit_boundary(b, l);
        valid_utf8_split(b, k);
        decode_utf8_split(b, k);
        assert(all.take(k) =~= b.subrange(0, k));
        let held = all.skip(k);
        assert(held + concat_chunks(rest) =~= b.subrange(k, b.len() as int));
        if t > 0 {
            lemma_scan_suffix(all, 1, t);
            assert(held =~= all.skip(all.len() - t));
        } else {
            assert(held.len() == 0);
        }
        lemma_stream(held, rest);
        if k == 0 {
            assert(b.subrange(0, k) =~= Seq::<u8>::empty());
        }
        let (text, h) = push_result(p, c);
        assert(h == held);
        assert(text == decode_utf8(b.subrange(0, k)));
    }
}

/// Feeding any split of valid UTF-8 to a fresh accumulator, chunk by
/// chunk, emits exactly the decoded text, with nothing held back at the
/// end: no character is lost or replaced at a chunk boundary.
pub proof fn split_valid_utf8_decodes_whole(chunks: Seq<Seq<u8>>)
    requires
        valid_utf8(concat_chunks(chunks)),
    ensures
        stream_result(Seq::empty(), chunks) == (
            decode_utf8(concat_chunks(chunks)),
            Seq::<u8>::empty(),
        ),
{
    assert(Seq::<u8>::empty() + concat_chunks(chunks) =~= concat_chunks(chunks));
    lemma_stream(Seq::empty(), chunks);
}

/// Whatever split of valid UTF-8 was pushed into an accumulator, the text
/// it returned is exactly the decoded text and it holds nothing back.
pub proof fn pushed_valid_utf8_comes_out_whole(acc: &Utf8Accumulator)
    requires
        acc.wf(),
        valid_utf8(acc.fed()),
    ensures
        acc.emitted() == decode_utf8(acc.fed()),
        acc@ == Seq::<u8>::empty(),
{
    split_valid_utf8_decodes_whole(acc.chunks@);
}

/// Appends the bytes of `data` to `v`.
pub(crate) fn append_bytes(v: &mut Vec<u8>, data: &[u8])
    ensures
        final(v)@ == old(v)@ + data@,
{
    let mut i: usize = 0;
    while i < data.len()
        invariant
            i <= data@.len(),
            v@ == old(v)@ + data@.take(i as int),
        decreases data.len() - i,
    {
        v.push(data[i]);
        i += 1;
        assert(v@ =~= old(v)@ + data@.take(i as int));
    }
    assert(data@.take(data@.len() as int) =~= data@);
}

/// Copies `v[..n]`.
fn take_prefix(v: &[u8], n: usize) -> (r: Vec<u8>)
    requires
        n <= v@.len(),
    ensures
        r@ == v@.take(n as int),
{
    let mut r: Vec<u8> = Vec::new();
    let mut i: usize = 0;
    while i < n
        invariant
            i <= n <= v@.len(),
            r@ == v@.take(i as int),
        decreases n - i,
    {
        r.push(v[i]);
        i += 1;
        assert(r@ =~= v@.take(i as int));
    }
    r
}

/// Copies `v[n..]`.
fn take_suffix(v: &[u8], n: usize) -> (r: Vec<u8>)
    requires
        n <= v@.len(),
    ensures
        r@ == v@.skip(n as int),
{
    let mut r: Vec<u8> = Vec::new();
    let mut i: usize = n;
    while i < v.len()
        invariant
            n <= i <= v@.len(),
            r@ == v@.subrange(n as int, i as int),
        decreases v.len() - i,
    {
        r.push(v[i]);
        i += 1;
        assert(r@ =~= v@.subrange(n as int, i as int));
    }
    assert(r@ =~= v@.skip(n as int));
    r
}

} // verus!
