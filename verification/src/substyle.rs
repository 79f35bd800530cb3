//! Subtitle style for the ASS `[V4+ Styles]` section.

use vstd::prelude::*;

use crate::text::{decimal, push_decimal, push_str};

verus! {

#[derive(Debug)]
pub struct SubStyle {
    pub name: String,
    pub fontname: String,
    pub fontsize: u32,
    /// Primary colour in ASS `&H00BBGGRR` form.
    pub primary_colour: String,
    pub outline_colour: String,
    pub bold: bool,
    pub italic: bool,
    pub underline: bool,
    pub strike_out: bool,
    /// 1–9 numpad alignment.
    pub alignment: u32,
    pub outline: u32,
    pub shadow: u32,
    pub margin_l: u32,
    pub margin_r: u32,
    pub margin_v: u32,
}

impl Default for SubStyle {
    fn default() -> (r: Self)
        ensures
            r.name@ == "Default"@,
            r.fontname@ == "Arial"@,
            r.fontsize == 52,
            r.primary_colour@ == "&H00FFFFFF"@,
            r.outline_colour@ == "&H00000000"@,
            !r.bold && !r.italic && !r.underline && !r.strike_out,
            r.alignment == 2,
            r.outline == 2,
            r.shadow == 2,
            r.margin_l == 40,
            r.margin_r == 40,
            r.margin_v == 80,
    {
        SubStyle {
            name: "Default".to_string(),
            fontname: "Arial".to_string(),
            fontsize: 52,
            primary_colour: "&H00FFFFFF".to_string(),
            outline_colour: "&H00000000".to_string(),
            bold: false,
            italic: false,
            underline: false,
            strike_out: false,
            alignment: 2,
            outline: 2,
            shadow: 2,
            margin_l: 40,
            margin_r: 40,
            margin_v: 80,
        }
    }
}

/// An ASS style flag: `-1` when on, `0` when off.
pub open spec fn flag(on: bool) -> Seq<char> {
    if on {
        "-1"@
    } else {
        "0"@
    }
}

fn push_flag(out: &mut String, on: bool)
    ensures
        final(out)@ == old(out)@ + flag(on),
{
    if on {
        push_str(out, "-1");
    } else {
        push_str(out, "0");
    }
}

impl SubStyle {
    /// The `Style:` line: 23 comma-separated fields in V4+ order.
    pub open spec fn style_line(&self) -> Seq<char> {
        "Style: "@ + self.name@ + ","@ + self.fontname@ + ","@ + decimal(self.fontsize as nat) + ","@
            + self.primary_colour@ + ",&H000000FF,"@ + self.outline_colour@ + ",&H00000000,"@
            + flag(self.bold) + ","@ + flag(self.italic) + ","@ + flag(self.underline) + ","@ + flag(
            self.strike_out,
        ) + ",100,100,0,0,1,"@ + decimal(self.outline as nat) + ","@ + decimal(self.shadow as nat)
            + ","@ + decimal(self.alignment as nat) + ","@ + decimal(self.margin_l as nat) + ","@
            + decimal(self.margin_r as nat) + ","@ + decimal(self.margin_v as nat) + ",1"@
    }

    /// Render the ASS `[V4+ Styles]` `Style:` line.
    pub fn ass_style_line(&self) -> (r: String)
        ensures
            r@ == self.style_line(),
    {
        let mut s = String::new();
        push_str(&mut s, "Style: ");
        push_str(&mut s, self.name.as_str());
        push_str(&mut s, ",");
        push_str(&mut s, self.fontname.as_str());
        push_str(&mut s, ",");
        push_decimal(&mut s, self.fontsize as u64);
        push_str(&mut s, ",");
        push_str(&mut s, self.primary_colour.as_str());
        push_str(&mut s, ",&H000000FF,");
        push_str(&mut s, self.outline_colour.as_str());
        push_str(&mut s, ",&H00000000,");
        push_flag(&mut s, self.bold);
        push_str(&mut s, ",");
        push_flag(&mut s, self.italic);
        push_str(&mut s, ",");
        push_flag(&mut s, self.underline);
        push_str(&mut s, ",");
        push_flag(&mut s, self.strike_out);
        push_str(&mut s, ",100,100,0,0,1,");
        push_decimal(&mut s, self.outline as u64);
        push_str(&mut s, ",");
        push_decimal(&mut s, self.shadow as u64);
        push_str(&mut s, ",");
        push_decimal(&mut s, self.alignment as u64);
        push_str(&mut s, ",");
        push_decimal(&mut s, self.margin_l as u64);
        push_str(&mut s, ",");
        push_decimal(&mut s, self.margin_r as u64);
        push_str(&mut s, ",");
        push_decimal(&mut s, self.margin_v as u64);
        push_str(&mut s, ",1");
        s
    }
}

} // verus!
