//! Colours, as three parts of red, green and blue.

use crate::format::SqlSizeClass;
use vstd::prelude::*;
use vstd::string::StringExecFns;

verus! {

/// What `str::to_uppercase` makes of `s`.
pub uninterp spec fn uppercase(s: Seq<char>) -> Seq<char>;

/// Calls `str::to_uppercase`. The contract only gives the result its name:
/// the upper-case form of a text depends on the text alone. Trusted, not
/// proved.
#[verifier::external_body]
pub(crate) fn to_uppercase(s: &str) -> (r: String)
    ensures
        r@ == uppercase(s@),
{
    s.to_uppercase()
}

/// How far two colour parts lie apart.
pub open spec fn gap(a: u8, b: u8) -> int {
    if a < b {
        b - a
    } else {
        a - b
    }
}

/// Whether a colour is a grey that reads badly on a dark ground: a pure grey
/// between 100 and 180, or a near grey between 80 and 140.
pub open spec fn is_dull_grey(r: u8, g: u8, b: u8) -> bool {
    ||| r == g && g == b && 100 < r < 180
    ||| gap(r, g) < 20 && gap(g, b) < 20 && 80 < r < 140
}

/// The colour in which highlighted text is shown: the colour that the
/// highlighter gave, but a warm beige in place of a dull grey.
pub fn syn_style_to_ratatui(r: u8, g: u8, b: u8) -> (rgb: (u8, u8, u8))
    ensures
        rgb == if is_dull_grey(r, g, b) {
            (245u8, 222u8, 179u8)
        } else {
            (r, g, b)
        },
{
    let is_grey = r == g && g == b && r > 100 && r < 180;
    let rg: u8 = if r < g {
        g - r
    } else {
        r - g
    };
    let gb: u8 = if g < b {
        b - g
    } else {
        g - b
    };
    let is_dark_grey = rg < 20 && gb < 20 && r > 80 && r < 140;
    if is_grey || is_dark_grey {
        (245, 222, 179)
    } else {
        (r, g, b)
    }
}

/// The colour that stands for a size class.
pub fn sql_size_color(class: SqlSizeClass) -> (rgb: (u8, u8, u8))
    ensures
        rgb == match class {
            SqlSizeClass::Small => (80u8, 200u8, 120u8),
            SqlSizeClass::Medium => (255u8, 193u8, 7u8),
            SqlSizeClass::Big => (255u8, 87u8, 34u8),
            SqlSizeClass::Abomination => (186u8, 48u8, 255u8),
        },
{
    match class {
        SqlSizeClass::Small => (80, 200, 120),
        SqlSizeClass::Medium => (255, 193, 7),
        SqlSizeClass::Big => (255, 87, 34),
        SqlSizeClass::Abomination => (186, 48, 255),
    }
}

/// The colour of an HTTP method, given the method in upper case.
pub open spec fn method_color(upper: Seq<char>) -> (u8, u8, u8) {
    if upper == "GET"@ {
        (97, 175, 254)
    } else if upper == "POST"@ {
        (73, 204, 144)
    } else if upper == "PUT"@ {
        (252, 161, 48)
    } else if upper == "DELETE"@ {
        (249, 62, 62)
    } else if upper == "PATCH"@ {
        (80, 227, 194)
    } else if upper == "OPTIONS"@ {
        (144, 18, 254)
    } else if upper == "HEAD"@ {
        (155, 155, 155)
    } else {
        (128, 128, 128)
    }
}

/// The colour of an HTTP method written in upper case.
pub fn upper_method_color(upper: &String) -> (rgb: (u8, u8, u8))
    ensures
        rgb == method_color(upper@),
{
    if *upper == String::from_str("GET") {
        (97, 175, 254)
    } else if *upper == String::from_str("POST") {
        (73, 204, 144)
    } else if *upper == String::from_str("PUT") {
        (252, 161, 48)
    } else if *upper == String::from_str("DELETE") {
        (249, 62, 62)
    } else if *upper == String::from_str("PATCH") {
        (80, 227, 194)
    } else if *upper == String::from_str("OPTIONS") {
        (144, 18, 254)
    } else if *upper == String::from_str("HEAD") {
        (155, 155, 155)
    } else {
        (128, 128, 128)
    }
}

/// The colour of an HTTP method, however it is written.
pub fn get_http_method_color(method: &str) -> (rgb: (u8, u8, u8))
    ensures
        rgb == method_color(uppercase(method@)),
{
    let upper = to_uppercase(method);
    upper_method_color(&upper)
}

/// The colour part that lies `num / den` of the way from `a` to `b`, rounded
/// to the nearest whole number, a half upwards.
pub open spec fn blend(a: u8, b: u8, num: int, den: int) -> int {
    (2 * (a * den + (b - a) * num) + den) / (2 * den)
}

/// The colour that lies `num / den` of the way from one colour to another.
pub open spec fn blend_rgb(from: (u8, u8, u8), to: (u8, u8, u8), num: int, den: int) -> (
    int,
    int,
    int,
) {
    (blend(from.0, to.0, num, den), blend(from.1, to.1, num, den), blend(from.2, to.2, num, den))
}

/// The colour that stands for a duration: on the way from green to yellow
/// below 250 ms, as far as the duration is on the way to 500 ms; yellow up to
/// 500 ms; from there on the way from yellow to red, as far as the duration
/// is on the way to 5000 ms; red from 5000 ms on.
pub open spec fn duration_color(ms: u64) -> (int, int, int) {
    if ms < 250 {
        blend_rgb((38, 255, 0), (255, 252, 66), ms as int, 500)
    } else if ms < 500 {
        (255, 252, 66)
    } else if ms < 5000 {
        blend_rgb((255, 252, 66), (237, 83, 83), ms - 500, 4500)
    } else {
        (237, 83, 83)
    }
}

/// One colour part, blended.
fn blend_part(a: u8, b: u8, num: u32, den: u32) -> (r: u8)
    requires
        0 < den <= 4500,
        num <= den,
    ensures
        r == blend(a, b, num as int, den as int),
{
    let a64: i64 = a as i64;
    let b64: i64 = b as i64;
    let n: i64 = num as i64;
    let d: i64 = den as i64;
    assert(-255 * 4500 <= (b64 - a64) * n <= 255 * 4500) by (nonlinear_arith)
        requires
            -255 <= b64 - a64 <= 255,
            0 <= n <= 4500,
    ;
    assert(0 <= a64 * d <= 255 * 4500) by (nonlinear_arith)
        requires
            0 <= a64 <= 255,
            0 < d <= 4500,
    ;
    let whole: i64 = a64 * d + (b64 - a64) * n;
    assert(0 <= whole <= 255 * d) by (nonlinear_arith)
        requires
            whole == a64 * d + (b64 - a64) * n,
            0 <= a64 <= 255,
            0 <= b64 <= 255,
            0 <= n <= d,
    ;
    let r: i64 = (2 * whole + d) / (2 * d);
    assert(0 <= r <= 255) by (nonlinear_arith)
        requires
            r == (2 * whole + d) / (2 * d),
            0 <= whole <= 255 * d,
            d > 0,
    ;
    r as u8
}

/// The colour that stands for a duration of `ms` milliseconds.
pub fn interpolate_color(ms: u64) -> (rgb: (u8, u8, u8))
    ensures
        (rgb.0 as int, rgb.1 as int, rgb.2 as int) == duration_color(ms),
{
    if ms < 250 {
        let num: u32 = ms as u32;
        (
            blend_part(38, 255, num, 500),
            blend_part(255, 252, num, 500),
            blend_part(0, 66, num, 500),
        )
    } else if ms < 500 {
        (255, 252, 66)
    } else if ms < 5000 {
        let num: u32 = (ms - 500) as u32;
        (
            blend_part(255, 237, num, 4500),
            blend_part(252, 83, num, 4500),
            blend_part(66, 83, num, 4500),
        )
    } else {
        (237, 83, 83)
    }
}

} // verus!
