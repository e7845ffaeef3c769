//! Camera models and intrinsics of structure-from-motion
//! reconstructions, as collaborators hand them to the engine, with a
//! verified decimal-integer parser for their text records.

use vstd::prelude::*;
use crate::text::str_eq;

verus! {

broadcast use vstd::string::group_string_axioms;

/// The distortion model of a reconstruction camera.
#[derive(Debug, Clone, PartialEq, Eq, Structural)]
pub enum CameraModel {
    SimplePinhole,
    Pinhole,
    SimpleRadial,
    Radial,
    OpenCV,
    OpenCvFishEye,
    FullOpenCV,
    Fov,
    SimpleRadialFisheye,
    RadialFisheye,
    ThinPrismFisheye,
}

/// The model a numeric id denotes.
pub open spec fn spec_model_from_id(id: int) -> Option<CameraModel> {
    if id == 0 {
        Some(CameraModel::SimplePinhole)
    } else if id == 1 {
        Some(CameraModel::Pinhole)
    } else if id == 2 {
        Some(CameraModel::SimpleRadial)
    } else if id == 3 {
        Some(CameraModel::Radial)
    } else if id == 4 {
        Some(CameraModel::OpenCV)
    } else if id == 5 {
        Some(CameraModel::OpenCvFishEye)
    } else if id == 6 {
        Some(CameraModel::FullOpenCV)
    } else if id == 7 {
        Some(CameraModel::Fov)
    } else if id == 8 {
        Some(CameraModel::SimpleRadialFisheye)
    } else if id == 9 {
        Some(CameraModel::RadialFisheye)
    } else if id == 10 {
        Some(CameraModel::ThinPrismFisheye)
    } else {
        None
    }
}

/// How many intrinsic parameters each model carries.
pub open spec fn spec_num_params(m: CameraModel) -> int {
    match m {
        CameraModel::SimplePinhole => 3,
        CameraModel::Pinhole => 4,
        CameraModel::SimpleRadial => 4,
        CameraModel::Radial => 5,
        CameraModel::OpenCV => 8,
        CameraModel::OpenCvFishEye => 8,
        CameraModel::FullOpenCV => 12,
        CameraModel::Fov => 5,
        CameraModel::SimpleRadialFisheye => 4,
        CameraModel::RadialFisheye => 5,
        CameraModel::ThinPrismFisheye => 12,
    }
}

impl CameraModel {
    pub fn from_id(id: i32) -> (r: Option<Self>)
        ensures
            r == spec_model_from_id(id as int),
            r is Some <==> 0 <= id <= 10,
    {
        match id {
            0 => Some(Self::SimplePinhole),
            1 => Some(Self::Pinhole),
            2 => Some(Self::SimpleRadial),
            3 => Some(Self::Radial),
            4 => Some(Self::OpenCV),
            5 => Some(Self::OpenCvFishEye),
            6 => Some(Self::FullOpenCV),
            7 => Some(Self::Fov),
            8 => Some(Self::SimpleRadialFisheye),
            9 => Some(Self::RadialFisheye),
            10 => Some(Self::ThinPrismFisheye),
            _ => None,
        }
    }

    pub fn from_name(name: &str) -> (r: Option<Self>)
        ensures
            name@ == "SIMPLE_PINHOLE"@ ==> r == Some(CameraModel::SimplePinhole),
            name@ == "PINHOLE"@ ==> r == Some(CameraModel::Pinhole),
            name@ == "SIMPLE_RADIAL"@ ==> r == Some(CameraModel::SimpleRadial),
            name@ == "RADIAL"@ ==> r == Some(CameraModel::Radial),
            name@ == "OPENCV"@ ==> r == Some(CameraModel::OpenCV),
            name@ == "OPENCV_FISHEYE"@ ==> r == Some(CameraModel::OpenCvFishEye),
            name@ == "FULL_OPENCV"@ ==> r == Some(CameraModel::FullOpenCV),
            name@ == "FOV"@ ==> r == Some(CameraModel::Fov),
            name@ == "SIMPLE_RADIAL_FISHEYE"@ ==> r == Some(CameraModel::SimpleRadialFisheye),
            name@ == "RADIAL_FISHEYE"@ ==> r == Some(CameraModel::RadialFisheye),
            name@ == "THIN_PRISM_FISHEYE"@ ==> r == Some(CameraModel::ThinPrismFisheye),
            r is None <==> !(name@ == "SIMPLE_PINHOLE"@ || name@ == "PINHOLE"@ || name@
                == "SIMPLE_RADIAL"@ || name@ == "RADIAL"@ || name@ == "OPENCV"@ || name@
                == "OPENCV_FISHEYE"@ || name@ == "FULL_OPENCV"@ || name@ == "FOV"@ || name@
                == "SIMPLE_RADIAL_FISHEYE"@ || name@ == "RADIAL_FISHEYE"@ || name@
                == "THIN_PRISM_FISHEYE"@),
    {
        proof {
            reveal_strlit("SIMPLE_PINHOLE");
            reveal_strlit("PINHOLE");
            reveal_strlit("SIMPLE_RADIAL");
            reveal_strlit("RADIAL");
            reveal_strlit("OPENCV");
            reveal_strlit("OPENCV_FISHEYE");
            reveal_strlit("FULL_OPENCV");
            reveal_strlit("FOV");
            reveal_strlit("SIMPLE_RADIAL_FISHEYE");
            reveal_strlit("RADIAL_FISHEYE");
            reveal_strlit("THIN_PRISM_FISHEYE");
            assert("SIMPLE_PINHOLE"@.len() == 14);
            assert("PINHOLE"@.len() == 7);
            assert("SIMPLE_RADIAL"@.len() == 13);
            assert("RADIAL"@.len() == 6);
            assert("OPENCV"@.len() == 6);
            assert("OPENCV_FISHEYE"@.len() == 14);
            assert("FULL_OPENCV"@.len() == 11);
            assert("FOV"@.len() == 3);
            assert("SIMPLE_RADIAL_FISHEYE"@.len() == 21);
            assert("RADIAL_FISHEYE"@.len() == 14);
            assert("THIN_PRISM_FISHEYE"@.len() == 18);
            assert("RADIAL"@[0] == 'R' && "OPENCV"@[0] == 'O');
            assert("SIMPLE_PINHOLE"@[0] == 'S' && "OPENCV_FISHEYE"@[0] == 'O'
                && "RADIAL_FISHEYE"@[0] == 'R');
        }
        if str_eq(name, "SIMPLE_PINHOLE") {
            Some(Self::SimplePinhole)
        } else if str_eq(name, "PINHOLE") {
            Some(Self::Pinhole)
        } else if str_eq(name, "SIMPLE_RADIAL") {
            Some(Self::SimpleRadial)
        } else if str_eq(name, "RADIAL") {
            Some(Self::Radial)
        } else if str_eq(name, "OPENCV") {
            Some(Self::OpenCV)
        } else if str_eq(name, "OPENCV_FISHEYE") {
            Some(Self::OpenCvFishEye)
        } else if str_eq(name, "FULL_OPENCV") {
            Some(Self::FullOpenCV)
        } else if str_eq(name, "FOV") {
            Some(Self::Fov)
        } else if str_eq(name, "SIMPLE_RADIAL_FISHEYE") {
            Some(Self::SimpleRadialFisheye)
        } else if str_eq(name, "RADIAL_FISHEYE") {
            Some(Self::RadialFisheye)
        } else if str_eq(name, "THIN_PRISM_FISHEYE") {
            Some(Self::ThinPrismFisheye)
        } else {
            None
        }
    }

    pub fn num_params(&self) -> (r: usize)
        ensures
            r == spec_num_params(*self),
    {
        match self {
            Self::SimplePinhole => 3,
            Self::Pinhole => 4,
            Self::SimpleRadial => 4,
            Self::Radial => 5,
            Self::OpenCV => 8,
            Self::OpenCvFishEye => 8,
            Self::FullOpenCV => 12,
            Self::Fov => 5,
            Self::SimpleRadialFisheye => 4,
            Self::RadialFisheye => 5,
            Self::ThinPrismFisheye => 12,
        }
    }
}

/// Index of the vertical focal length within a model's parameters.
pub open spec fn spec_focal_y_index(m: CameraModel) -> int {
    match m {
        CameraModel::SimplePinhole => 0,
        CameraModel::Pinhole => 1,
        CameraModel::SimpleRadial => 0,
        CameraModel::Radial => 0,
        CameraModel::OpenCV => 1,
        CameraModel::OpenCvFishEye => 1,
        CameraModel::FullOpenCV => 1,
        CameraModel::Fov => 1,
        CameraModel::SimpleRadialFisheye => 0,
        CameraModel::RadialFisheye => 0,
        CameraModel::ThinPrismFisheye => 1,
    }
}

/// Index of the horizontal principal-point coordinate; the vertical
/// one follows it.
pub open spec fn spec_principal_x_index(m: CameraModel) -> int {
    match m {
        CameraModel::SimplePinhole => 1,
        CameraModel::Pinhole => 2,
        CameraModel::SimpleRadial => 1,
        CameraModel::Radial => 1,
        CameraModel::OpenCV => 2,
        CameraModel::OpenCvFishEye => 2,
        CameraModel::FullOpenCV => 2,
        CameraModel::Fov => 2,
        CameraModel::SimpleRadialFisheye => 1,
        CameraModel::RadialFisheye => 1,
        CameraModel::ThinPrismFisheye => 2,
    }
}

/// One reconstruction camera: id, model, image size and intrinsic
/// parameters (fixed-point scalars).
#[derive(Debug, Clone)]
pub struct Camera {
    pub id: i32,
    pub model: CameraModel,
    pub width: u64,
    pub height: u64,
    pub params: Vec<i64>,
}

impl Camera {
    /// The parameter vector matches the model.
    pub open spec fn wf(&self) -> bool {
        self.params@.len() == spec_num_params(self.model)
    }

    /// Horizontal and vertical focal length.
    pub fn focal(&self) -> (r: (i64, i64))
        requires
            self.wf(),
        ensures
            r.0 == self.params@[0],
            r.1 == self.params@[spec_focal_y_index(self.model)],
    {
        let yi: usize = match self.model {
            CameraModel::SimplePinhole => 0,
            CameraModel::Pinhole => 1,
            CameraModel::SimpleRadial => 0,
            CameraModel::Radial => 0,
            CameraModel::OpenCV => 1,
            CameraModel::OpenCvFishEye => 1,
            CameraModel::FullOpenCV => 1,
            CameraModel::Fov => 1,
            CameraModel::SimpleRadialFisheye => 0,
            CameraModel::RadialFisheye => 0,
            CameraModel::ThinPrismFisheye => 1,
        };
        (self.params[0], self.params[yi])
    }

    /// Principal point, in pixels.
    pub fn principal_point(&self) -> (r: (i64, i64))
        requires
            self.wf(),
        ensures
            r.0 == self.params@[spec_principal_x_index(self.model)],
            r.1 == self.params@[spec_principal_x_index(self.model) + 1],
    {
        let xi: usize = match self.model {
            CameraModel::SimplePinhole => 1,
            CameraModel::Pinhole => 2,
            CameraModel::SimpleRadial => 1,
            CameraModel::Radial => 1,
            CameraModel::OpenCV => 2,
            CameraModel::OpenCvFishEye => 2,
            CameraModel::FullOpenCV => 2,
            CameraModel::Fov => 2,
            CameraModel::SimpleRadialFisheye => 1,
            CameraModel::RadialFisheye => 1,
            CameraModel::ThinPrismFisheye => 2,
        };
        (self.params[xi], self.params[xi + 1])
    }
}

/// A record field that could not be read as a number.
#[derive(Debug, Clone, Copy, PartialEq, Eq, Structural)]
pub enum ParseError {
    Invalid,
}

pub open spec fn is_dec_digit(c: char) -> bool {
    48 <= c as u32 <= 57
}

pub open spec fn digit_val(c: char) -> int {
    c as u32 - 48
}

/// Value of a string of decimal digits, most significant first.
pub open spec fn digits_val(s: Seq<char>) -> int
    decreases s.len(),
{
    if s.len() == 0 {
        0
    } else {
        digits_val(s.drop_last()) * 10 + digit_val(s.last())
    }
}

pub open spec fn all_dec_digits(s: Seq<char>) -> bool {
    forall|i: int| 0 <= i < s.len() ==> is_dec_digit(#[trigger] s[i])
}

/// The digit part of an optionally sign-prefixed literal.
pub open spec fn spec_digit_part(s: Seq<char>) -> Seq<char> {
    if s.len() > 0 && (s[0] == '-' || s[0] == '+') {
        s.subrange(1, s.len() as int)
    } else {
        s
    }
}

/// A parsable integer literal: an optional sign, then at least one
/// digit, denoting a value within the 64-bit signed range.
pub open spec fn spec_int_literal(s: Seq<char>) -> bool {
    let d = spec_digit_part(s);
    &&& d.len() > 0
    &&& all_dec_digits(d)
    &&& if s.len() > 0 && s[0] == '-' {
        digits_val(d) <= i64::MAX as int + 1
    } else {
        digits_val(d) <= i64::MAX as int
    }
}

/// The value a parsable literal denotes.
pub open spec fn spec_int_value(s: Seq<char>) -> int {
    if s.len() > 0 && s[0] == '-' {
        -digits_val(spec_digit_part(s))
    } else {
        digits_val(spec_digit_part(s))
    }
}

proof fn lemma_digits_nonneg(s: Seq<char>)
    requires
        all_dec_digits(s),
    ensures
        digits_val(s) >= 0,
    decreases s.len(),
{
    if s.len() > 0 {
        assert(all_dec_digits(s.drop_last())) by {
            assert(forall|i: int| 0 <= i < s.len() - 1 ==> s.drop_last()[i] == s[i]);
        }
        lemma_digits_nonneg(s.drop_last());
    }
}

/// A longer digit string never denotes a smaller value.
proof fn lemma_digits_prefix_le(s: Seq<char>, n: int)
    requires
        all_dec_digits(s),
        0 <= n <= s.len(),
    ensures
        digits_val(s.subrange(0, n)) <= digits_val(s),
    decreases s.len() - n,
{
    if n < s.len() {
        let p = s.subrange(0, n + 1);
        assert(p.drop_last() =~= s.subrange(0, n));
        assert(all_dec_digits(p));
        assert(all_dec_digits(p.drop_last()));
        lemma_digits_nonneg(p.drop_last());
        assert(digits_val(p.drop_last()) * 10 >= digits_val(p.drop_last()))
            by (nonlinear_arith)
            requires
                digits_val(p.drop_last()) >= 0,
        ;
        assert(digits_val(s.subrange(0, n)) <= digits_val(p));
        lemma_digits_prefix_le(s, n + 1);
    } else {
        assert(s.subrange(0, n) =~= s);
    }
}

/// Parse a decimal integer: exactly the optionally sign-prefixed
/// digit strings whose value fits the result type, the most negative
/// value included.
pub fn parse(s: &str) -> (r: Result<i64, ParseError>)
    ensures
        r matches Ok(v) ==> spec_int_literal(s@) && v == spec_int_value(s@),
        r is Err <==> !spec_int_literal(s@),
{
    let n = s.unicode_len();
    let neg = n > 0 && s.get_char(0) == '-';
    let plus = n > 0 && s.get_char(0) == '+';
    let start: usize = if neg || plus {
        1
    } else {
        0
    };
    if n == start {
        return Err(ParseError::Invalid);
    }
    let ghost d = spec_digit_part(s@);
    proof {
        if neg || plus {
            assert(d =~= s@.subrange(1, s@.len() as int));
        } else {
            assert(d =~= s@);
        }
    }
    let limit: u64 = if neg {
        9223372036854775808
    } else {
        9223372036854775807
    };
    let mut acc: u64 = 0;
    let mut i: usize = start;
    while i < n
        invariant
            start <= i <= n,
            n == s@.len(),
            start == if neg || plus {
                1int
            } else {
                0int
            },
            neg ==> s@[0] == '-',
            plus ==> s@[0] == '+',
            !neg && !plus ==> (n > 0 ==> s@[0] != '-' && s@[0] != '+'),
            limit == if neg {
                9223372036854775808u64
            } else {
                9223372036854775807u64
            },
            d == spec_digit_part(s@),
            d.len() == n - start,
            forall|j: int| start <= j < i ==> is_dec_digit(#[trigger] s@[j]),
            forall|j: int| 0 <= j < d.len() ==> d[j] == s@[j + start],
            acc == digits_val(d.subrange(0, i - start)),
            acc <= limit,
        decreases n - i,
    {
        let c = s.get_char(i);
        let u = c as u32;
        if u < 48 || u > 57 {
            proof {
                assert(!is_dec_digit(d[i - start]));
            }
            return Err(ParseError::Invalid);
        }
        let dv = (u - 48) as u64;
        if acc > (limit - dv) / 10 {
            proof {
                let p = d.subrange(0, i + 1 - start);
                assert(p.drop_last() =~= d.subrange(0, i - start));
                assert(p.last() == d[i - start]);
                assert(digits_val(p) == acc * 10 + dv);
                let lim = limit as int - dv;
                vstd::arithmetic::div_mod::lemma_fundamental_div_mod(lim, 10);
                assert(acc * 10 >= (lim / 10 + 1) * 10) by (nonlinear_arith)
                    requires
                        acc >= lim / 10 + 1,
                ;
                assert(digits_val(p) > limit);
                assert(forall|j: int| 0 <= j < p.len() ==> is_dec_digit(#[trigger] p[j]));
                if all_dec_digits(d) {
                    lemma_digits_prefix_le(d, i + 1 - start);
                }
            }
            return Err(ParseError::Invalid);
        }
        proof {
            let lim = limit as int - dv;
            vstd::arithmetic::div_mod::lemma_fundamental_div_mod(lim, 10);
            assert(acc * 10 <= (lim / 10) * 10) by (nonlinear_arith)
                requires
                    acc <= lim / 10,
            ;
            let p = d.subrange(0, i + 1 - start);
            assert(p.drop_last() =~= d.subrange(0, i - start));
            assert(p.last() == d[i - start]);
        }
        acc = acc * 10 + dv;
        i = i + 1;
    }
    proof {
        assert(d.subrange(0, n - start) =~= d);
        assert(all_dec_digits(d));
    }
    if neg {
        if acc == 9223372036854775808 {
            Ok(i64::MIN)
        } else {
            Ok(-(acc as i64))
        }
    } else {
        Ok(acc as i64)
    }
}

} // verus!
