//! B-roll placement options and the picture-in-picture rectangle.

use vstd::prelude::*;

use crate::error::{AppError, AppResult};
use crate::text::{parse_u32, parse_u32_spec, split_on, split_string, str_eq, trim, trimmed, views};

verus! {

#[derive(Debug, Clone, Copy, PartialEq, Eq, Structural)]
pub enum PlacementMode {
    Fullscreen,
    Pip,
}

#[derive(Debug, Clone, Copy, PartialEq, Eq, Structural)]
pub enum FitMode {
    Cover,
    Contain,
}

#[derive(Debug, Clone, Copy, PartialEq, Eq, Structural)]
pub enum BackgroundMode {
    Blur,
    Black,
}

impl Default for PlacementMode {
    fn default() -> (r: Self)
        ensures
            r == PlacementMode::Pip,
    {
        PlacementMode::Pip
    }
}

impl Default for FitMode {
    fn default() -> (r: Self)
        ensures
            r == FitMode::Cover,
    {
        FitMode::Cover
    }
}

impl Default for BackgroundMode {
    fn default() -> (r: Self)
        ensures
            r == BackgroundMode::Black,
    {
        BackgroundMode::Black
    }
}

fn message3(a: &str, b: &str, c: &str) -> (r: String)
    ensures
        r@ == a@ + b@ + c@,
{
    let mut m = String::new();
    m.append(a);
    m.append(b);
    m.append(c);
    m
}

/// Parses a placement mode: `fullscreen` or `pip`.
pub fn parse_placement_mode(value: &str) -> (r: AppResult<PlacementMode>)
    ensures
        value@ == "fullscreen"@ ==> r == Ok::<PlacementMode, AppError>(PlacementMode::Fullscreen),
        value@ == "pip"@ ==> r == Ok::<PlacementMode, AppError>(PlacementMode::Pip),
        value@ != "fullscreen"@ && value@ != "pip"@ ==> crate::error::schema_error(
            r,
            "invalid B-roll mode `"@ + value@ + "`; expected fullscreen|pip"@,
        ),
{
    proof {
        reveal_strlit("fullscreen");
        reveal_strlit("pip");
        assert("fullscreen"@.len() == 10);
        assert("pip"@.len() == 3);
        assert("fullscreen"@ != "pip"@);
    }
    if str_eq(value, "fullscreen") {
        Ok(PlacementMode::Fullscreen)
    } else if str_eq(value, "pip") {
        Ok(PlacementMode::Pip)
    } else {
        Err(AppError::Schema(message3("invalid B-roll mode `", value, "`; expected fullscreen|pip")))
    }
}

/// Parses a fit mode: `cover` or `contain`.
pub fn parse_fit_mode(value: &str) -> (r: AppResult<FitMode>)
    ensures
        value@ == "cover"@ ==> r == Ok::<FitMode, AppError>(FitMode::Cover),
        value@ == "contain"@ ==> r == Ok::<FitMode, AppError>(FitMode::Contain),
        value@ != "cover"@ && value@ != "contain"@ ==> crate::error::schema_error(
            r,
            "invalid B-roll fit `"@ + value@ + "`; expected cover|contain"@,
        ),
{
    proof {
        reveal_strlit("cover");
        reveal_strlit("contain");
        assert("cover"@.len() == 5);
        assert("contain"@.len() == 7);
        assert("cover"@ != "contain"@);
    }
    if str_eq(value, "cover") {
        Ok(FitMode::Cover)
    } else if str_eq(value, "contain") {
        Ok(FitMode::Contain)
    } else {
        Err(AppError::Schema(message3("invalid B-roll fit `", value, "`; expected cover|contain")))
    }
}

/// Parses a background mode: `blur` or `black`.
pub fn parse_background_mode(value: &str) -> (r: AppResult<BackgroundMode>)
    ensures
        value@ == "blur"@ ==> r == Ok::<BackgroundMode, AppError>(BackgroundMode::Blur),
        value@ == "black"@ ==> r == Ok::<BackgroundMode, AppError>(BackgroundMode::Black),
        value@ != "blur"@ && value@ != "black"@ ==> crate::error::schema_error(
            r,
            "invalid B-roll background `"@ + value@ + "`; expected blur|black"@,
        ),
{
    proof {
        reveal_strlit("blur");
        reveal_strlit("black");
        assert("blur"@.len() == 4);
        assert("black"@.len() == 5);
        assert("blur"@ != "black"@);
    }
    if str_eq(value, "blur") {
        Ok(BackgroundMode::Blur)
    } else if str_eq(value, "black") {
        Ok(BackgroundMode::Black)
    } else {
        Err(
            AppError::Schema(
                message3("invalid B-roll background `", value, "`; expected blur|black"),
            ),
        )
    }
}

impl std::str::FromStr for PlacementMode {
    type Err = AppError;

    fn from_str(value: &str) -> (r: Result<Self, Self::Err>)
        ensures
            value@ == "fullscreen"@ ==> r == Ok::<PlacementMode, AppError>(PlacementMode::Fullscreen),
            value@ == "pip"@ ==> r == Ok::<PlacementMode, AppError>(PlacementMode::Pip),
            value@ != "fullscreen"@ && value@ != "pip"@ ==> crate::error::schema_error(
                r,
                "invalid B-roll mode `"@ + value@ + "`; expected fullscreen|pip"@,
            ),
    {
        parse_placement_mode(value)
    }
}

impl std::str::FromStr for FitMode {
    type Err = AppError;

    fn from_str(value: &str) -> (r: Result<Self, Self::Err>)
        ensures
            value@ == "cover"@ ==> r == Ok::<FitMode, AppError>(FitMode::Cover),
            value@ == "contain"@ ==> r == Ok::<FitMode, AppError>(FitMode::Contain),
            value@ != "cover"@ && value@ != "contain"@ ==> crate::error::schema_error(
                r,
                "invalid B-roll fit `"@ + value@ + "`; expected cover|contain"@,
            ),
    {
        parse_fit_mode(value)
    }
}

impl std::str::FromStr for BackgroundMode {
    type Err = AppError;

    fn from_str(value: &str) -> (r: Result<Self, Self::Err>)
        ensures
            value@ == "blur"@ ==> r == Ok::<BackgroundMode, AppError>(BackgroundMode::Blur),
            value@ == "black"@ ==> r == Ok::<BackgroundMode, AppError>(BackgroundMode::Black),
            value@ != "blur"@ && value@ != "black"@ ==> crate::error::schema_error(
                r,
                "invalid B-roll background `"@ + value@ + "`; expected blur|black"@,
            ),
    {
        parse_background_mode(value)
    }
}

/// A rectangle on the export canvas, in pixels.
#[derive(Debug, Clone, Copy, PartialEq, Eq, Structural)]
pub struct Rect {
    pub x: u32,
    pub y: u32,
    pub width: u32,
    pub height: u32,
}

/// Where a picture-in-picture placement goes when none is given: the upper
/// right of a 1920×1080 canvas.
pub fn default_pip_rect() -> (r: Rect)
    ensures
        r == (Rect { x: 1229, y: 65, width: 614, height: 346 }),
{
    Rect { x: 1229, y: 65, width: 614, height: 346 }
}

/// The comma-separated pieces of a rectangle.
pub open spec fn rect_pieces(raw: Seq<char>) -> Seq<Seq<char>> {
    split_on(raw, '\u{2c}')
}

/// The `i`-th field, trimmed and parsed.
pub open spec fn rect_field(raw: Seq<char>, i: int) -> Option<u32> {
    parse_u32_spec(trimmed(rect_pieces(raw)[i]))
}

/// The comma-separated fields of a rectangle, each trimmed and parsed.
pub open spec fn rect_fields(raw: Seq<char>) -> Seq<Option<u32>> {
    Seq::new(rect_pieces(raw).len(), |i: int| rect_field(raw, i))
}

pub open spec fn all_fields_parse(f: Seq<Option<u32>>) -> bool {
    forall|i: int| 0 <= i < f.len() ==> (#[trigger] f[i]) is Some
}

/// Parses `x,y,width,height`: four unsigned integers, positive width and
/// height.
pub fn parse_rect(raw: &str) -> (r: AppResult<Rect>)
    ensures
        !all_fields_parse(rect_fields(raw@)) ==> crate::error::schema_error(
            r,
            "B-roll rect must be x,y,width,height with nonnegative integers"@,
        ),
        all_fields_parse(rect_fields(raw@)) && !(rect_fields(raw@).len() == 4 && rect_fields(
            raw@,
        )[2]->0 != 0 && rect_fields(raw@)[3]->0 != 0) ==> crate::error::schema_error(
            r,
            "B-roll rect must be x,y,width,height with positive width/height"@,
        ),
        all_fields_parse(rect_fields(raw@)) && rect_fields(raw@).len() == 4 && rect_fields(
            raw@,
        )[2]->0 != 0 && rect_fields(raw@)[3]->0 != 0 ==> r == Ok::<Rect, AppError>(
            Rect {
                x: rect_fields(raw@)[0]->0,
                y: rect_fields(raw@)[1]->0,
                width: rect_fields(raw@)[2]->0,
                height: rect_fields(raw@)[3]->0,
            },
        ),
{
    let pieces = split_string(raw, '\u{2c}');
    let ghost f = rect_fields(raw@);
    let mut values: Vec<u32> = Vec::new();
    let mut i: usize = 0;
    while i < pieces.len()
        invariant
            views(pieces@) == split_on(raw@, '\u{2c}'),
            f == rect_fields(raw@),
            f.len() == pieces@.len(),
            0 <= i <= pieces@.len(),
            values@.len() == i,
            forall|k: int| 0 <= k < i ==> f[k] == Some(#[trigger] values@[k]),
        decreases pieces@.len() - i,
    {
        assert(pieces@[i as int]@ == split_on(raw@, '\u{2c}')[i as int]);
        match parse_u32(trim(pieces[i].as_str())) {
            Some(v) => {
                values.push(v);
            },
            None => {
                assert(f[i as int] is None);
                return Err(
                    AppError::Schema(
                        "B-roll rect must be x,y,width,height with nonnegative integers".to_string(),
                    ),
                );
            },
        }
        i = i + 1;
    }
    assert(all_fields_parse(f)) by {
        assert forall|k: int| 0 <= k < f.len() implies (#[trigger] f[k]) is Some by {
            assert(f[k] == Some(values@[k]));
        }
    }
    if values.len() != 4 || values[2] == 0 || values[3] == 0 {
        return Err(
            AppError::Schema(
                "B-roll rect must be x,y,width,height with positive width/height".to_string(),
            ),
        );
    }
    Ok(Rect { x: values[0], y: values[1], width: values[2], height: values[3] })
}

} // verus!
