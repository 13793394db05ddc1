//! The terminal backend: it keeps the frame text that the runtime last
//! sent and reports a stable hash of it.
use vstd::prelude::*;
use std::collections::hash_map::DefaultHasher;
use std::hash::Hasher;
use vstd::std_specs::hash::DefaultHasherAdditionalSpecFns;
use crate::render_ir::{FrameInfo, FrameSnapshot, HostPatch};
use crate::text::{chars_of_string, string_of, trim};

verus! {

pub struct RatatuiBackend {
    pub frame_text: String,
    pub width: u16,
    pub height: u16,
}

/// The frame text after a sequence of patches: the text of the last
/// `ReplaceFrameText`, else the text before them.
pub open spec fn frame_after(patches: Seq<HostPatch>, before: Seq<char>) -> Seq<char>
    decreases patches.len(),
{
    if patches.len() == 0 {
        before
    } else {
        match patches.last() {
            HostPatch::ReplaceFrameText { text } => text@,
            _ => frame_after(patches.drop_last(), before),
        }
    }
}

/// A lowercase hexadecimal digit.
pub open spec fn hex_char(n: int) -> char {
    if n < 10 {
        (('0' as u32) + n) as char
    } else {
        (('a' as u32) + (n - 10)) as char
    }
}

/// The last `n` hexadecimal digits of `v`, most significant first, with
/// leading zeros.
pub open spec fn hex_digits(v: nat, n: nat) -> Seq<char>
    decreases n,
{
    if n == 0 {
        Seq::empty()
    } else {
        hex_digits(v / 16, (n - 1) as nat).push(hex_char((v % 16) as int))
    }
}

/// What `str::hash` feeds a hasher: the UTF-8 bytes of the text, then the
/// byte 0xff.
pub open spec fn hashed_bytes(text: Seq<char>) -> Seq<Seq<u8>> {
    seq![vstd::utf8::encode_utf8(text), seq![0xffu8]]
}

/// The stable hash of a text: what a fresh `DefaultHasher` finishes with
/// after hashing the text, as sixteen lowercase hexadecimal digits.
pub open spec fn stable_hash_text(text: Seq<char>) -> Seq<char> {
    hex_digits(DefaultHasher::spec_finish(hashed_bytes(text)) as nat, 16)
}

fn push_hex(out: &mut Vec<char>, v: u64, n: u32)
    ensures
        final(out)@ == old(out)@ + hex_digits(v as nat, n as nat),
    decreases n,
{
    if n > 0 {
        push_hex(out, v / 16, n - 1);
        let d = (v % 16) as u8;
        let ch: char = if d < 10 {
            (48u8 + d) as char
        } else {
            (87u8 + d) as char
        };
        assert(ch == hex_char((v % 16) as int));
        out.push(ch);
        assert(out@ =~= old(out)@ + hex_digits(v as nat, n as nat));
    } else {
        assert(out@ =~= old(out)@ + hex_digits(v as nat, n as nat));
    }
}

/// The stable hash of a text: a fresh `DefaultHasher` fed the text as
/// `str::hash` feeds it, finished, written as sixteen hexadecimal digits.
pub fn stable_hash(text: &str) -> (r: String)
    ensures
        r@ == stable_hash_text(text@),
{
    let mut hasher = DefaultHasher::new();
    let bytes = text.as_bytes();
    hasher.write(bytes);
    let tail: Vec<u8> = vec![0xffu8];
    let tail_slice = tail.as_slice();
    hasher.write(tail_slice);
    assert(tail_slice@ =~= seq![0xffu8]);
    assert(hasher@ =~= hashed_bytes(text@));
    let v = hasher.finish();
    let mut out: Vec<char> = Vec::new();
    push_hex(&mut out, v, 16);
    string_of(&out)
}

impl RatatuiBackend {
    /// The frame text the backend holds.
    pub closed spec fn frame(&self) -> Seq<char> {
        self.frame_text@
    }

    /// The backend's width and height.
    pub open spec fn size(&self) -> (u16, u16) {
        (self.width, self.height)
    }

    /// A backend of the given size with an empty frame.
    pub fn new(width: u16, height: u16) -> (r: RatatuiBackend)
        ensures
            r.width == width,
            r.height == height,
            r.size() == (width, height),
            r.frame().len() == 0,
    {
        RatatuiBackend { frame_text: String::new(), width, height }
    }

    /// Applies the patches in order: each `ReplaceFrameText` replaces the
    /// frame text; the others leave it.
    pub fn apply_patches(&mut self, patches: &[HostPatch])
        ensures
            final(self).frame() == frame_after(patches@, old(self).frame()),
            final(self).size() == old(self).size(),
            final(self).width == old(self).width,
            final(self).height == old(self).height,
    {
        let mut i: usize = 0;
        assert(patches@.take(0) =~= Seq::<HostPatch>::empty());
        while i < patches.len()
            invariant
                i <= patches@.len(),
                self.frame() == frame_after(patches@.take(i as int), old(self).frame()),
                self.width == old(self).width,
                self.height == old(self).height,
            decreases patches.len() - i,
        {
            match &patches[i] {
                HostPatch::ReplaceFrameText { text } => {
                    self.frame_text = text.clone();
                },
                _ => {},
            }
            assert(patches@.take(i + 1).drop_last() =~= patches@.take(i as int));
            i = i + 1;
        }
        assert(patches@.take(patches@.len() as int) =~= patches@);
    }

    /// The hash of the frame, and whether it shows anything other than
    /// whitespace.
    pub fn render_frame(&self) -> (r: FrameInfo)
        ensures
            r.hash@ == stable_hash_text(self.frame()),
            r.nonblank == (trim(self.frame()).len() > 0),
    {
        let v = chars_of_string(&self.frame_text);
        let (a, b) = crate::text::trim_range(&v, 0, v.len());
        assert(v@.subrange(0, v@.len() as int) =~= v@);
        FrameInfo { hash: stable_hash(self.frame_text.as_str()), nonblank: a < b }
    }

    /// A snapshot of the frame: the backend's size and its text, with no
    /// pixel hash.
    pub fn capture_frame(&self) -> (r: FrameSnapshot)
        ensures
            r.width == self.size().0 as u32,
            r.height == self.size().1 as u32,
            r.text@ == self.frame(),
            r.rgba_hash is None,
    {
        FrameSnapshot {
            width: self.width as u32,
            height: self.height as u32,
            text: self.frame_text.clone(),
            rgba_hash: None,
        }
    }
}

} // verus!
