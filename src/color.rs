use vstd::prelude::*;

verus! {

/// An 8-bit color with red, green, blue and opacity channels, in that order.
#[derive(Debug, Clone, Copy)]
pub struct Color(pub [u8; 4]);

/// The channel value that an escape count is narrowed to: the count modulo 256.
pub open spec fn gray_level(n: usize) -> u8 {
    (n % 256) as u8
}

/// The channels of the color that an escape result is classified as: black
/// for an orbit that did not escape, otherwise the narrowed escape count on
/// red, green and blue. The opacity channel is always fully opaque.
pub open spec fn grayscale_channels(escape_time: Option<usize>) -> Seq<u8> {
    match escape_time {
        Some(n) => seq![gray_level(n), gray_level(n), gray_level(n), 255u8],
        None => seq![0u8, 0u8, 0u8, 255u8],
    }
}

impl PartialEq for Color {
    fn eq(&self, other: &Color) -> (r: bool) {
        let same = self.0[0] == other.0[0] && self.0[1] == other.0[1] && self.0[2] == other.0[2]
            && self.0[3] == other.0[3];
        proof {
            if same {
                assert(self@ =~= other@);
            }
        }
        same
    }
}

impl vstd::std_specs::cmp::PartialEqSpecImpl for Color {
    open spec fn obeys_eq_spec() -> bool {
        true
    }

    open spec fn eq_spec(&self, other: &Color) -> bool {
        self@ == other@
    }
}

impl Eq for Color {

}

impl View for Color {
    type V = Seq<u8>;

    open spec fn view(&self) -> Seq<u8> {
        self.0@
    }
}

impl Color {
    /// The four channels, by value.
    pub fn as_array(&self) -> (r: [u8; 4])
        ensures
            r@ == self@,
    {
        self.0
    }

    /// The four channels, by reference.
    pub fn as_slice(&self) -> (r: &[u8; 4])
        ensures
            r@ == self@,
    {
        &self.0
    }

    /// The four channels, for writing in place: what is written through the
    /// returned reference is what the color holds afterwards.
    pub fn as_slice_mut(&mut self) -> (r: &mut [u8; 4])
        ensures
            r@ == old(self)@,
            final(r)@ == final(self)@,
    {
        &mut self.0
    }

    pub fn red(&self) -> (r: u8)
        ensures
            r == self@[0],
    {
        self.0[0]
    }

    pub fn green(&self) -> (r: u8)
        ensures
            r == self@[1],
    {
        self.0[1]
    }

    pub fn blue(&self) -> (r: u8)
        ensures
            r == self@[2],
    {
        self.0[2]
    }

    pub fn alpha(&self) -> (r: u8)
        ensures
            r == self@[3],
    {
        self.0[3]
    }
}

/// Classifies an escape result: black for an orbit that did not escape, a gray
/// whose three channels all equal the escape count modulo 256 for one that did.
pub fn escape_time_to_grayscale(escape_time: Option<usize>) -> (r: Color)
    ensures
        r@ == grayscale_channels(escape_time),
{
    match escape_time {
        Some(escape_iter_count) => {
            let level = #[verifier::truncate] (escape_iter_count as u8);
            assert(#[verifier::truncate] (escape_iter_count as u8) == #[verifier::truncate] ((
            escape_iter_count % 256) as u8)) by (bit_vector);
            Color([level, level, level, 255])
        },
        None => Color([0, 0, 0, 255]),
    }
}

} // verus!
