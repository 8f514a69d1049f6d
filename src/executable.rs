use vstd::prelude::*;

verus! {

/// The image with byte `b` written at address `at`: in place when `at` lies
/// inside it, else after a run of zero bytes that reaches `at`.
pub open spec fn write_byte(image: Seq<u8>, at: nat, b: u8) -> Seq<u8> {
    if at < image.len() {
        image.update(at as int, b)
    } else {
        image + Seq::new((at - image.len()) as nat, |i: int| 0u8) + seq![b]
    }
}

/// The image with the little-endian word `w` written at address `at`.
pub open spec fn write_word(image: Seq<u8>, at: nat, w: u16) -> Seq<u8> {
    write_byte(write_byte(image, at, (w & 0x00FF) as u8), at + 1, (w >> 8) as u8)
}

/// A byte image under construction, with the address of the next write.
pub struct Executable {
    bytes: Vec<u8>,
    address: u16,
}

impl Executable {
    /// The bytes written so far, holes filled with zeros.
    pub closed spec fn image(&self) -> Seq<u8> {
        self.bytes@
    }

    /// The address that the next byte goes to.
    pub closed spec fn cursor(&self) -> nat {
        self.address as nat
    }

    pub fn new() -> (r: Self)
        ensures
            r.image() == Seq::<u8>::empty(),
            r.cursor() == 0,
    {
        Executable { bytes: Vec::new(), address: 0 }
    }

    fn push_byte(&mut self, b: u8)
        requires
            old(self).cursor() < 0xFFFF,
        ensures
            final(self).image() == write_byte(old(self).image(), old(self).cursor(), b),
            final(self).cursor() == old(self).cursor() + 1,
    {
        let at: usize = self.address as usize;
        let ghost start = self.bytes@;
        while self.bytes.len() < at
            invariant
                at == old(self).cursor(),
                self.address == old(self).address,
                start == old(self).image(),
                start.len() <= self.bytes@.len() <= at || (self.bytes@ == start && at < start.len()),
                self.bytes@ == start + Seq::new((self.bytes@.len() - start.len()) as nat, |i: int| 0u8),
            decreases at - self.bytes.len(),
        {
            self.bytes.push(0);
            assert(self.bytes@ =~= start + Seq::new((self.bytes@.len() - start.len()) as nat, |i: int| 0u8));
        }
        if at == self.bytes.len() {
            self.bytes.push(b);
        } else {
            self.bytes.set(at, b);
        }
        proof {
            if at < start.len() {
                assert(self.bytes@ =~= start.update(at as int, b));
            } else {
                assert(self.bytes@ =~= start + Seq::new((at - start.len()) as nat, |i: int| 0u8) + seq![b]);
            }
        }
        self.address = self.address + 1;
    }

    /// Writes a word, low byte first.
    pub fn push_short(&mut self, s: u16)
        requires
            old(self).cursor() + 2 <= 0xFFFF,
        ensures
            final(self).image() == write_word(old(self).image(), old(self).cursor(), s),
            final(self).cursor() == old(self).cursor() + 2,
    {
        self.push_byte((s & 0x00FF) as u8);
        self.push_byte(((s & 0xFF00) >> 8) as u8);
        assert(((s & 0xFF00) >> 8) as u8 == (s >> 8) as u8) by (bit_vector);
    }

    pub fn address(&self) -> (r: u16)
        ensures
            r == self.cursor(),
    {
        self.address
    }

    pub fn size(&self) -> (r: usize)
        ensures
            r == self.image().len(),
    {
        self.bytes.len()
    }

    /// Moves the cursor; the bytes stay as they are.
    pub fn set_address(&mut self, a: u16)
        ensures
            final(self).image() == old(self).image(),
            final(self).cursor() == a,
    {
        self.address = a;
    }

    pub fn bytes(&self) -> (r: &Vec<u8>)
        ensures
            r@ == self.image(),
    {
        &self.bytes
    }
}

} // verus!
