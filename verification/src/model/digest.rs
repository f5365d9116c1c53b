//! Digests of texts: the standard library's default hasher, in hexadecimal.

use crate::text::hex;
use crate::text::hex16;
use std::collections::hash_map::DefaultHasher;
use std::hash::Hasher;
use vstd::prelude::*;
use vstd::std_specs::hash::DefaultHasherAdditionalSpecFns;
use vstd::utf8::encode_utf8;

verus! {

/// What a hasher is fed for the given texts, one after the other: the bytes of
/// each, closed by a byte that no text holds.
pub open spec fn hasher_input(texts: Seq<Seq<char>>) -> Seq<Seq<u8>>
    decreases texts.len(),
{
    if texts.len() == 0 {
        Seq::empty()
    } else {
        hasher_input(texts.drop_last()).push(encode_utf8(texts.last())).push(seq![0xffu8])
    }
}

/// The digest of the given texts: sixteen hexadecimal digits.
pub open spec fn digest(texts: Seq<Seq<char>>) -> Seq<char> {
    hex(DefaultHasher::spec_finish(hasher_input(texts)) as nat, 16)
}

/// A digest in the making.
pub struct Digest {
    hasher: DefaultHasher,
    texts: Ghost<Seq<Seq<char>>>,
}

impl View for Digest {
    type V = Seq<Seq<char>>;

    closed spec fn view(&self) -> Seq<Seq<char>> {
        self.texts@
    }
}

impl Digest {
    /// Whether the hasher was fed just the texts.
    pub closed spec fn wf(&self) -> bool {
        self.hasher@ == hasher_input(self.texts@)
    }

    /// A digest of nothing yet.
    pub fn new() -> (r: Self)
        ensures
            r.wf(),
            r@ == Seq::<Seq<char>>::empty(),
    {
        Digest { hasher: DefaultHasher::new(), texts: Ghost(Seq::empty()) }
    }

    /// Adds a text.
    pub fn text(&mut self, s: &str)
        requires
            old(self).wf(),
        ensures
            final(self).wf(),
            final(self)@ == old(self)@.push(s@),
    {
        let end: [u8; 1] = [0xff];
        let ghost before = self.texts@;
        self.hasher.write(s.as_bytes());
        self.hasher.write(&end);
        self.texts = Ghost(before.push(s@));
        proof {
            assert(self.texts@.drop_last() =~= before);
            assert(end@ =~= seq![0xffu8]);
        }
    }

    /// The digest of the texts added so far.
    pub fn finish(&self) -> (r: String)
        requires
            self.wf(),
        ensures
            r@ == digest(self@),
    {
        hex16(self.hasher.finish())
    }
}

} // verus!
