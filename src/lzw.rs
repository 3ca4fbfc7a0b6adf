use vstd::arithmetic::power2::pow2;
use vstd::prelude::*;

use crate::bits::{pow2_u32, BitReader};
use crate::error::GifError;

verus! {

/// Codes are at most twelve bits wide, so the dictionary holds at most 4096 entries.
pub const MAX_CODES: usize = 4096;

pub const MAX_CODE_WIDTH: u32 = 12;

/// The abstract state of an LZW decompressor.
pub struct LzwState {
    /// Entry `i` is the symbol sequence of code `i`; the clear and end codes map
    /// to empty sequences. Its length is the next code to be assigned.
    pub dict: Seq<Seq<u8>>,
    pub width: nat,
    pub awaiting_first: bool,
    pub prev: Seq<u8>,
    pub out: Seq<u8>,
    pub done: bool,
}

pub open spec fn clear_code(m: nat) -> nat {
    pow2(m)
}

pub open spec fn end_code(m: nat) -> nat {
    pow2(m) + 1
}

/// The dictionary right after a clear code: one single-symbol entry per literal,
/// then the two control codes.
pub open spec fn initial_dict(m: nat) -> Seq<Seq<u8>> {
    Seq::new(
        (clear_code(m) + 2) as nat,
        |i: int| if i < clear_code(m) { seq![i as u8] } else { Seq::<u8>::empty() },
    )
}

/// The state after a clear code; the output so far is kept.
pub open spec fn reset_state(m: nat, out: Seq<u8>) -> LzwState {
    LzwState {
        dict: initial_dict(m),
        width: m + 1,
        awaiting_first: true,
        prev: Seq::empty(),
        out,
        done: false,
    }
}

/// Emits `entry`, adds `prev ++ [entry[0]]` to the dictionary while it has room,
/// widens the codes when the next code reaches `2^width`, and remembers `entry`.
pub open spec fn emit_entry(s: LzwState, entry: Seq<u8>) -> LzwState {
    if s.dict.len() < MAX_CODES {
        let dict = s.dict.push(s.prev.push(entry[0]));
        LzwState {
            dict,
            width: if dict.len() == pow2(s.width) && s.width < 12 {
                s.width + 1
            } else {
                s.width
            },
            awaiting_first: false,
            prev: entry,
            out: s.out + entry,
            done: false,
        }
    } else {
        LzwState { prev: entry, out: s.out + entry, awaiting_first: false, ..s }
    }
}

/// One code of the stream, for minimum code size `m`.
pub open spec fn lzw_step(m: nat, s: LzwState, c: nat) -> Result<LzwState, GifError> {
    if c == end_code(m) {
        Ok(LzwState { done: true, ..s })
    } else if c == clear_code(m) {
        Ok(reset_state(m, s.out))
    } else if s.awaiting_first {
        if c < clear_code(m) {
            Ok(LzwState { prev: seq![c as u8], out: s.out.push(c as u8), awaiting_first: false, ..s })
        } else {
            Err(GifError::InvalidLzwCode)
        }
    } else if c < s.dict.len() {
        Ok(emit_entry(s, s.dict[c as int]))
    } else if c == s.dict.len() {
        Ok(emit_entry(s, s.prev.push(s.prev[0])))
    } else {
        Err(GifError::InvalidLzwCode)
    }
}

/// The invariant of every state the decompressor passes through.
pub open spec fn state_wf(m: nat, s: LzwState) -> bool {
    &&& 1 <= m <= 8
    &&& clear_code(m) + 2 <= s.dict.len() <= MAX_CODES
    &&& m + 1 <= s.width <= 12
    &&& forall|i: int|
        0 <= i < s.dict.len() && i != clear_code(m) && i != end_code(m) ==> #[trigger] s.dict[i].len() > 0
    &&& !s.awaiting_first ==> s.prev.len() > 0
}

/// Reads codes out of the buffered bits `value` (`count` of them) and applies
/// them, until the end code, an error, or too few bits for the current width.
pub open spec fn drain(m: nat, s: LzwState, value: nat, count: nat) -> Result<(LzwState, nat, nat), GifError>
    decreases count,
{
    if s.done || s.width == 0 || count < s.width {
        Ok((s, value, count))
    } else {
        match lzw_step(m, s, value % pow2(s.width)) {
            Ok(s2) => drain(m, s2, value / pow2(s.width), (count - s.width) as nat),
            Err(e) => Err(e),
        }
    }
}

/// Pushes the bytes of `data` from index `i` on, least significant bit first,
/// draining codes after each byte, until the end code is reached.
pub open spec fn feed(m: nat, data: Seq<u8>, i: nat, s: LzwState, value: nat, count: nat) -> Result<LzwState, GifError>
    decreases data.len() - i,
{
    if s.done || i >= data.len() {
        Ok(s)
    } else {
        match drain(m, s, value + data[i as int] as nat * pow2(count), count + 8) {
            Ok(t) => feed(m, data, i + 1, t.0, t.1, t.2),
            Err(e) => Err(e),
        }
    }
}

/// The index stream that the image data `data` decompresses to, with minimum
/// code size `m`: the output up to the end code, which must be reached.
pub open spec fn lzw_decode_spec(m: nat, data: Seq<u8>) -> Result<Seq<u8>, GifError> {
    match feed(m, data, 0, reset_state(m, Seq::empty()), 0, 0) {
        Ok(s) => if s.done {
            Ok(s.out)
        } else {
            Err(GifError::TruncatedLzwStream)
        },
        Err(e) => Err(e),
    }
}

/// A code that is neither a control code nor the first after a clear adds
/// exactly one dictionary entry while the dictionary has room; the first code
/// after a clear adds none, and a full dictionary stays as it is.
pub proof fn lemma_one_entry_per_code(m: nat, s: LzwState, c: nat)
    requires
        state_wf(m, s),
        c != clear_code(m),
        c != end_code(m),
        lzw_step(m, s, c) is Ok,
    ensures
        s.awaiting_first ==> lzw_step(m, s, c)->Ok_0.dict == s.dict,
        !s.awaiting_first && s.dict.len() < MAX_CODES ==> lzw_step(m, s, c)->Ok_0.dict.len() == s.dict.len() + 1,
        !s.awaiting_first && s.dict.len() == MAX_CODES ==> lzw_step(m, s, c)->Ok_0.dict == s.dict,
{
}

/// Every step keeps the invariant. Apart from a clear code, which sets it back
/// to `m + 1`, the code width grows by one exactly when a new entry makes the
/// next code equal to `2^width` while the width is below twelve bits; it never
/// passes twelve.
pub proof fn lemma_width_growth(m: nat, s: LzwState, c: nat)
    requires
        state_wf(m, s),
        lzw_step(m, s, c) is Ok,
    ensures
        state_wf(m, lzw_step(m, s, c)->Ok_0),
        lzw_step(m, s, c)->Ok_0.width <= MAX_CODE_WIDTH,
        c == clear_code(m) ==> lzw_step(m, s, c)->Ok_0.width == m + 1,
        c != clear_code(m) ==> lzw_step(m, s, c)->Ok_0.width == if lzw_step(m, s, c)->Ok_0.dict.len() > s.dict.len()
            && lzw_step(m, s, c)->Ok_0.dict.len() == pow2(s.width) && s.width < 12 {
            s.width + 1
        } else {
            s.width
        },
{
    let t = lzw_step(m, s, c)->Ok_0;
    if c == clear_code(m) {
        vstd::arithmetic::power2::lemma_pow2_pos(m);
        crate::bits::lemma_pow2_mono(m, 8);
        vstd::arithmetic::power2::lemma2_to64();
    } else if c != end_code(m) && !s.awaiting_first {
        let entry = if c < s.dict.len() { s.dict[c as int] } else { s.prev.push(s.prev[0]) };
        assert(entry.len() > 0);
        assert forall|i: int|
            0 <= i < t.dict.len() && i != clear_code(m) && i != end_code(m) implies #[trigger] t.dict[i].len() > 0 by {
            if i < s.dict.len() {
                assert(t.dict[i] == s.dict[i]);
            }
        }
    }
}

/// The LZW decompressor for one frame's image data.
pub struct Lzw {
    code_size: u32,
    clear: usize,
    dict: Vec<Vec<u8>>,
    width: u32,
    awaiting_first: bool,
    prev: Vec<u8>,
    out: Vec<u8>,
    done: bool,
}

pub fn copy_bytes(v: &Vec<u8>) -> (r: Vec<u8>)
    ensures
        r@ == v@,
{
    let mut r: Vec<u8> = Vec::new();
    let mut i: usize = 0;
    while i < v.len()
        invariant
            i <= v.len(),
            r@ == v@.subrange(0, i as int),
        decreases v.len() - i,
    {
        r.push(v[i]);
        i = i + 1;
        assert(r@ =~= v@.subrange(0, i as int));
    }
    assert(r@ =~= v@);
    r
}

fn append_bytes(dst: &mut Vec<u8>, src: &Vec<u8>)
    ensures
        final(dst)@ == old(dst)@ + src@,
{
    let mut i: usize = 0;
    while i < src.len()
        invariant
            i <= src.len(),
            dst@ == old(dst)@ + src@.subrange(0, i as int),
        decreases src.len() - i,
    {
        dst.push(src[i]);
        i = i + 1;
        assert(dst@ =~= old(dst)@ + src@.subrange(0, i as int));
    }
    assert(src@.subrange(0, src@.len() as int) =~= src@);
}

impl View for Lzw {
    type V = LzwState;

    closed spec fn view(&self) -> LzwState {
        LzwState {
            dict: self.dict@.map_values(|e: Vec<u8>| e@),
            width: self.width as nat,
            awaiting_first: self.awaiting_first,
            prev: self.prev@,
            out: self.out@,
            done: self.done,
        }
    }
}

fn initial_table(clear: usize) -> (r: Vec<Vec<u8>>)
    requires
        2 <= clear <= 256,
    ensures
        r@.map_values(|e: Vec<u8>| e@) =~= Seq::new(
            (clear + 2) as nat,
            |i: int| if i < clear { seq![i as u8] } else { Seq::<u8>::empty() },
        ),
{
    let mut r: Vec<Vec<u8>> = Vec::new();
    let mut i: usize = 0;
    while i < clear + 2
        invariant
            2 <= clear <= 256,
            i <= clear + 2,
            r@.len() == i,
            forall|j: int|
                0 <= j < i ==> #[trigger] r@[j]@ == (if j < clear { seq![j as u8] } else { Seq::<u8>::empty() }),
        decreases clear + 2 - i,
    {
        if i < clear {
            let mut e: Vec<u8> = Vec::new();
            e.push(i as u8);
            r.push(e);
        } else {
            r.push(Vec::new());
        }
        i = i + 1;
    }
    r
}

impl Lzw {
    /// The minimum code size this decompressor was made for.
    pub closed spec fn min_code_size(&self) -> nat {
        self.code_size as nat
    }

    pub closed spec fn wf(&self) -> bool {
        &&& self.clear as nat == clear_code(self.code_size as nat)
        &&& state_wf(self.code_size as nat, self@)
    }

    /// A decompressor in the state that a clear code sets.
    pub fn new(min_code_size: u8) -> (r: Lzw)
        requires
            1 <= min_code_size <= 8,
        ensures
            r.wf(),
            r.min_code_size() == min_code_size as nat,
            r@ == reset_state(min_code_size as nat, Seq::empty()),
    {
        let clear = pow2_u32(min_code_size as u32) as usize;
        proof {
            crate::bits::lemma_pow2_mono(1, min_code_size as nat);
            crate::bits::lemma_pow2_mono(min_code_size as nat, 8);
            vstd::arithmetic::power2::lemma2_to64();
        }
        let r = Lzw {
            code_size: min_code_size as u32,
            clear,
            dict: initial_table(clear),
            width: min_code_size as u32 + 1,
            awaiting_first: true,
            prev: Vec::new(),
            out: Vec::new(),
            done: false,
        };
        assert(r@.dict =~= initial_dict(min_code_size as nat));
        assert(r@.out =~= Seq::<u8>::empty());
        assert(r@.prev =~= Seq::<u8>::empty());
        r
    }

    /// The next code to be assigned.
    pub fn next_code(&self) -> (r: usize)
        ensures
            r == self@.dict.len(),
    {
        self.dict.len()
    }

    /// The current code width in bits.
    pub fn code_width(&self) -> (r: u32)
        ensures
            r == self@.width,
    {
        self.width
    }

    /// Whether the end code has been read.
    pub fn is_done(&self) -> (r: bool)
        ensures
            r == self@.done,
    {
        self.done
    }

    /// The index stream produced so far.
    pub fn output(&self) -> (r: &Vec<u8>)
        ensures
            r@ == self@.out,
    {
        &self.out
    }

    /// The index stream produced so far, taking the decompressor.
    pub fn into_output(self) -> (r: Vec<u8>)
        ensures
            r@ == self@.out,
    {
        self.out
    }

    /// Applies one code.
    pub fn step(&mut self, code: u16) -> (r: Result<(), GifError>)
        requires
            old(self).wf(),
            !old(self)@.done,
        ensures
            final(self).min_code_size() == old(self).min_code_size(),
            match lzw_step(old(self).min_code_size(), old(self)@, code as nat) {
                Ok(s) => r is Ok && final(self)@ == s && final(self).wf(),
                Err(e) => r == Err::<(), GifError>(e),
            },
    {
        let c: usize = code as usize;
        let clear = self.clear;
        proof {
            crate::bits::lemma_pow2_mono(1, self.code_size as nat);
            crate::bits::lemma_pow2_mono(self.code_size as nat, 8);
            vstd::arithmetic::power2::lemma2_to64();
        }
        if c == clear + 1 {
            self.done = true;
            return Ok(());
        }
        if c == clear {
            self.dict = initial_table(clear);
            self.width = self.code_size + 1;
            self.awaiting_first = true;
            self.prev = Vec::new();
            assert(self@.dict =~= initial_dict(self.code_size as nat));
            assert(self@.prev =~= Seq::<u8>::empty());
            return Ok(());
        }
        if self.awaiting_first {
            if c < clear {
                self.out.push(c as u8);
                let mut p: Vec<u8> = Vec::new();
                p.push(c as u8);
                self.prev = p;
                self.awaiting_first = false;
                assert(self@.prev =~= seq![c as u8]);
                return Ok(());
            } else {
                return Err(GifError::InvalidLzwCode);
            }
        }
        let n = self.dict.len();
        let mut entry: Vec<u8>;
        if c < n {
            entry = copy_bytes(&self.dict[c]);
        } else if c == n {
            entry = copy_bytes(&self.prev);
            let first = self.prev[0];
            entry.push(first);
        } else {
            return Err(GifError::InvalidLzwCode);
        }
        assert(entry@.len() > 0);
        append_bytes(&mut self.out, &entry);
        let ghost old_dict = self@.dict;
        if n < MAX_CODES {
            let mut added = copy_bytes(&self.prev);
            added.push(entry[0]);
            self.dict.push(added);
            assert(self@.dict =~= old_dict.push(self@.prev.push(entry@[0])));
            proof {
                crate::bits::lemma_pow2_mono(self.width as nat, 12);
                vstd::arithmetic::power2::lemma2_to64();
            }
            if n + 1 == pow2_u32(self.width) as usize && self.width < MAX_CODE_WIDTH {
                self.width = self.width + 1;
            }
        }
        self.prev = entry;
        self.awaiting_first = false;
        Ok(())
    }
}

} // verus!

verus! {

/// Decompresses the concatenated sub-block payloads `data` of one image, with
/// minimum code size `min_code_size`, into its index stream.
pub fn lzw_decode(min_code_size: u8, data: &Vec<u8>) -> (r: Result<Vec<u8>, GifError>)
    requires
        1 <= min_code_size <= 8,
    ensures
        match lzw_decode_spec(min_code_size as nat, data@) {
            Ok(o) => r is Ok && r->Ok_0@ == o,
            Err(e) => r == Err::<Vec<u8>, GifError>(e),
        },
{
    let ghost m = min_code_size as nat;
    let mut lzw = Lzw::new(min_code_size);
    let mut reader = BitReader::new();
    let mut i: usize = 0;
    while i < data.len() && !lzw.is_done()
        invariant
            lzw.wf(),
            reader.wf(),
            m == min_code_size as nat,
            lzw.min_code_size() == m,
            i <= data.len(),
            !lzw@.done ==> reader.bit_count() < lzw@.width,
            feed(m, data@, i as nat, lzw@, reader.value(), reader.bit_count()) == feed(
                m,
                data@,
                0,
                reset_state(m, Seq::empty()),
                0,
                0,
            ),
        decreases data.len() - i,
    {
        let ghost s0 = lzw@;
        let ghost v0 = reader.value();
        let ghost c0 = reader.bit_count();
        reader.push_byte(data[i]);
        while !lzw.is_done() && reader.has_bits(lzw.code_width())
            invariant
                lzw.wf(),
                reader.wf(),
                m == min_code_size as nat,
                lzw.min_code_size() == m,
                i < data.len(),
                !s0.done,
                feed(m, data@, i as nat, s0, v0, c0) == feed(m, data@, 0, reset_state(m, Seq::empty()), 0, 0),
                drain(m, lzw@, reader.value(), reader.bit_count()) == drain(
                    m,
                    s0,
                    v0 + data@[i as int] as nat * pow2(c0),
                    c0 + 8,
                ),
            decreases reader.bit_count(),
        {
            let width = lzw.code_width();
            let ghost s1 = lzw@;
            let ghost v1 = reader.value();
            let ghost c1 = reader.bit_count();
            let code = match reader.read_code(width) {
                Ok(c) => c,
                Err(e) => {
                    return Err(e);
                },
            };
            match lzw.step(code) {
                Ok(()) => {},
                Err(e) => {
                    assert(drain(m, s1, v1, c1) == Err::<(LzwState, nat, nat), GifError>(e));
                    assert(feed(m, data@, i as nat, s0, v0, c0) == Err::<LzwState, GifError>(e));
                    return Err(e);
                },
            }
        }
        i = i + 1;
    }
    if lzw.is_done() {
        Ok(lzw.into_output())
    } else {
        Err(GifError::TruncatedLzwStream)
    }
}

} // verus!
