use vstd::prelude::*;

verus! {

#[verifier::external_type_specification]
#[verifier::external_body]
pub struct ExLab(lab::Lab);

/// The IEEE-754 single-precision bit patterns of the three channels
/// (lightness, a, b) of a CIELAB colour.
#[derive(Clone, Copy, PartialEq, Eq, Structural, Debug)]
pub struct LabBits {
    pub l: u32,
    pub a: u32,
    pub b: u32,
}

/// The sign bit of a single-precision float.
pub const SIGN_BIT: u32 = 0x8000_0000;

/// The bit pattern of positive infinity, the largest magnitude that is not a NaN.
pub const INFINITY_BITS: u32 = 0x7f80_0000;

/// Rank of the float with these bits in the total order of `f32::total_cmp`:
/// negative floats (sign bit set) come first, by decreasing magnitude.
pub open spec fn total_key(bits: u32) -> int {
    if bits < SIGN_BIT {
        bits as int
    } else {
        -1 - (bits - SIGN_BIT)
    }
}

/// The float with these bits is a NaN.
pub open spec fn is_nan_bits(bits: u32) -> bool {
    bits % SIGN_BIT > INFINITY_BITS
}

/// The float with these bits is finite: neither infinite nor a NaN.
pub open spec fn is_finite_bits(bits: u32) -> bool {
    bits % SIGN_BIT < INFINITY_BITS
}

/// Every channel of the colour is finite.
pub open spec fn lab_finite(p: LabBits) -> bool {
    is_finite_bits(p.l) && is_finite_bits(p.a) && is_finite_bits(p.b)
}

/// The floats with these bits compare equal with `==`: neither is a NaN, and
/// either the bits agree or both are zeros of any sign.
pub open spec fn float_eq(x: u32, y: u32) -> bool {
    !is_nan_bits(x) && !is_nan_bits(y) && (x == y || (x % SIGN_BIT == 0 && y % SIGN_BIT == 0))
}

/// The two colours compare equal channel by channel with float `==`.
pub open spec fn lab_eq(p: LabBits, q: LabBits) -> bool {
    float_eq(p.l, q.l) && float_eq(p.a, q.a) && float_eq(p.b, q.b)
}

/// Order key of a colour's lightness, as `f32::total_cmp` orders it.
pub open spec fn lightness_key(p: LabBits) -> int {
    total_key(p.l)
}

/// The CIELAB colour that `lab::Lab::from_rgb` gives for an sRGB triple.
pub uninterp spec fn lab_of_rgb(rgb: Seq<u8>) -> LabBits;

/// The sRGB triple that `lab::Lab::to_rgb` gives for a CIELAB colour.
pub uninterp spec fn rgb_of_lab(c: LabBits) -> Seq<u8>;

/// The bit pattern of the CIEDE2000 difference that
/// `empfindung::cie00::diff` gives for two CIELAB colours.
pub uninterp spec fn delta_e00(x: LabBits, y: LabBits) -> u32;

/// Largest CIEDE2000 difference (exclusive) at which two colours count as the
/// same: the bit pattern of the single-precision float 10.0.
pub const SIMILARITY_THRESHOLD_BITS: u32 = 0x4120_0000;

/// The two colours are perceptually indistinguishable: their CIEDE2000
/// difference is below the threshold. For floats that are not negative and
/// not NaN, which is all that the difference can be, the order of the bit
/// patterns as unsigned integers is the numeric order.
pub open spec fn similar(x: LabBits, y: LabBits) -> bool {
    delta_e00(x, y) < SIMILARITY_THRESHOLD_BITS
}

/// A CIELAB colour as the `lab` crate holds it, together with the bit
/// patterns of its channels, which are what the logic of this library reads.
#[derive(Clone, Copy)]
pub struct LabColor {
    value: lab::Lab,
    bits: LabBits,
}

impl View for LabColor {
    type V = LabBits;

    closed spec fn view(&self) -> LabBits {
        self.bits
    }
}

impl LabColor {
    /// Relies on `f32::to_bits` to record the bit pattern of each channel.
    #[verifier::external_body]
    pub(crate) fn from_lab(value: lab::Lab) -> (r: LabColor) {
        LabColor { value, bits: LabBits { l: value.l.to_bits(), a: value.a.to_bits(), b: value.b.to_bits() } }
    }

    /// The bit patterns of the three channels.
    pub fn bits(&self) -> (r: LabBits)
        ensures
            r == self@,
    {
        self.bits
    }

    /// The colour as the `lab` crate holds it.
    pub(crate) fn value(&self) -> (r: lab::Lab) {
        self.value
    }

    /// Relies on `lab::Lab::from_rgb`: the CIELAB colour of an sRGB triple,
    /// computed from bounded channel values, so every channel is finite.
    #[verifier::external_body]
    pub(crate) fn from_rgb(rgb: [u8; 3]) -> (r: LabColor)
        ensures
            r@ == lab_of_rgb(rgb@),
            lab_finite(r@),
    {
        LabColor::from_lab(lab::Lab::from_rgb(&rgb))
    }

    /// Relies on `lab::Lab::to_rgb`: the sRGB triple of a CIELAB colour, each
    /// channel clamped to the display range.
    #[verifier::external_body]
    pub(crate) fn to_rgb(&self) -> (r: [u8; 3])
        ensures
            r@ == rgb_of_lab(self@),
    {
        self.value.to_rgb()
    }

    /// Relies on `empfindung::cie00::diff`: the CIEDE2000 difference of two
    /// colours, as the bit pattern of the float it returns.
    #[verifier::external_body]
    pub(crate) fn delta_e(&self, other: &LabColor) -> (r: u32)
        ensures
            r == delta_e00(self@, other@),
    {
        empfindung::cie00::diff(self.value, other.value).to_bits()
    }

    /// Whether the two colours are perceptually indistinguishable.
    pub fn is_similar(&self, other: &LabColor) -> (r: bool)
        ensures
            r == similar(self@, other@),
    {
        self.delta_e(other) < SIMILARITY_THRESHOLD_BITS
    }

    /// Whether the two colours compare equal channel by channel.
    pub fn lab_eq(&self, other: &LabColor) -> (r: bool)
        ensures
            r == lab_eq(self@, other@),
    {
        float_bits_eq(self.bits.l, other.bits.l) && float_bits_eq(self.bits.a, other.bits.a)
            && float_bits_eq(self.bits.b, other.bits.b)
    }

    /// Order key of the lightness channel.
    pub fn lightness_key(&self) -> (r: i64)
        ensures
            r as int == lightness_key(self@),
    {
        total_key_of(self.bits.l)
    }
}

/// Whether the floats with these bit patterns compare equal with `==`.
pub fn float_bits_eq(x: u32, y: u32) -> (r: bool)
    ensures
        r == float_eq(x, y),
{
    let x_nan = x % SIGN_BIT > INFINITY_BITS;
    let y_nan = y % SIGN_BIT > INFINITY_BITS;
    !x_nan && !y_nan && (x == y || (x % SIGN_BIT == 0 && y % SIGN_BIT == 0))
}

/// Rank of the float with these bits in the order of `f32::total_cmp`.
pub fn total_key_of(bits: u32) -> (r: i64)
    ensures
        r as int == total_key(bits),
{
    if bits < SIGN_BIT {
        bits as i64
    } else {
        -1 - ((bits - SIGN_BIT) as i64)
    }
}

} // verus!
