//! The abbreviation grammar, as spec functions.
//!
//! Each function consumes a prefix of `s` starting at `pos` and returns,
//! on success, the parsed value together with how many characters were
//! consumed. The executable parser is proved to return exactly these
//! results. Unrecognised trailing characters end a sibling list silently:
//! no element consuming nothing is ever kept, so parsing always stops.

use vstd::prelude::*;

use crate::chars::digit_count;
use crate::chars::digit_val;
use crate::chars::ident_count;
use crate::chars::last_space;
use crate::chars::rem;
use crate::chars::space_run_start;
use crate::chars::tag_count;
use crate::chars::until_count;
use crate::chars::value_count;
use crate::chars::ws_count;
use crate::model::AttrModel;
use crate::model::ElemModel;
use crate::model::ErrModel;

verus! {

/// The tag name at `pos`, if any: a non-empty run of tag characters.
pub open spec fn spec_parse_tag(s: Seq<char>, pos: int) -> (Option<Seq<char>>, nat) {
    let n = tag_count(s, pos);
    if n > 0 {
        (Some(s.subrange(pos, pos + n)), n)
    } else {
        (None, 0)
    }
}

/// An identifier at `pos`: a non-empty run of identifier characters.
pub open spec fn spec_parse_identifier(s: Seq<char>, pos: int) -> Result<(Seq<char>, nat), ErrModel> {
    let n = ident_count(s, pos);
    if n > 0 {
        Ok((s.subrange(pos, pos + n), n))
    } else {
        Err(ErrModel::InvalidSyntax("Expected identifier"@))
    }
}

/// An attribute value at `pos`: either a quoted run taken verbatim up to
/// the next `"`, or a non-empty run of unquoted value characters. An
/// unquoted value may contain spaces; when the run is stopped by `=`, its
/// last space-separated segment is the next attribute's name, so the value
/// is cut back before that segment and its separating spaces.
pub open spec fn spec_parse_attr_value(s: Seq<char>, pos: int) -> Result<(Seq<char>, nat), ErrModel> {
    if pos < s.len() && s[pos] == '"' {
        let n = until_count(s, pos + 1, '"');
        if pos + 1 + n < s.len() {
            Ok((s.subrange(pos + 1, pos + 1 + n), (n + 2) as nat))
        } else {
            Err(ErrModel::UnclosedBracket)
        }
    } else {
        let n = value_count(s, pos);
        if n == 0 {
            Err(ErrModel::InvalidAttribute)
        } else if pos + n < s.len() && s[pos + n] == '=' && last_space(s, pos, pos + n) >= pos {
            let i = space_run_start(s, pos, last_space(s, pos, pos + n));
            if i > pos {
                Ok((s.subrange(pos, i), (i - pos) as nat))
            } else {
                Err(ErrModel::InvalidAttribute)
            }
        } else {
            Ok((s.subrange(pos, pos + n), n))
        }
    }
}

/// A text block at `pos`: `{`, then everything up to the next `}`, verbatim.
pub open spec fn spec_parse_text(s: Seq<char>, pos: int) -> Result<(Seq<char>, nat), ErrModel> {
    if pos < s.len() && s[pos] == '{' {
        let n = until_count(s, pos + 1, '}');
        if pos + 1 + n < s.len() {
            Ok((s.subrange(pos + 1, pos + 1 + n), (n + 2) as nat))
        } else {
            Err(ErrModel::UnclosedBracket)
        }
    } else {
        Err(ErrModel::InvalidSyntax("Expected '{'"@))
    }
}

/// The numeric value of the digits of `s` between `lo` and `hi`.
pub open spec fn digits_value(s: Seq<char>, lo: int, hi: int) -> nat
    decreases hi - lo,
{
    if hi <= lo {
        0
    } else {
        digits_value(s, lo, hi - 1) * 10 + digit_val(s[hi - 1])
    }
}

/// A multiplier count at `pos`: a non-empty run of decimal digits whose
/// value fits in 32 bits.
pub open spec fn spec_parse_number(s: Seq<char>, pos: int) -> Result<(u32, nat), ErrModel> {
    let n = digit_count(s, pos);
    if n == 0 {
        Err(ErrModel::InvalidSyntax("Expected number"@))
    } else {
        let v = digits_value(s, pos, pos + n);
        if v > u32::MAX {
            Err(ErrModel::InvalidSyntax("Invalid number"@))
        } else {
            Ok((v as u32, n))
        }
    }
}

/// The `.class` suffixes at `pos`, in order.
pub open spec fn spec_parse_classes(s: Seq<char>, pos: int) -> Result<(Seq<Seq<char>>, nat), ErrModel>
    decreases rem(s, pos),
{
    if pos < s.len() && s[pos] == '.' {
        match spec_parse_identifier(s, pos + 1) {
            Err(e) => Err(e),
            Ok((c, u1)) => match spec_parse_classes(s, pos + 1 + u1) {
                Err(e) => Err(e),
                Ok((rest, u2)) => Ok((seq![c] + rest, (1 + u1 + u2) as nat)),
            },
        }
    } else {
        Ok((Seq::empty(), 0))
    }
}

/// The attributes inside one bracket pair, starting just after the `[`:
/// whitespace-insignificant, separated by optional commas, ended by `]`.
/// Input that ends before the `]` leaves the bracket unclosed; reaching
/// `=` where a name is expected is a missing attribute name.
pub open spec fn spec_parse_attr_items(s: Seq<char>, pos: int) -> Result<(Seq<AttrModel>, nat), ErrModel>
    decreases rem(s, pos),
{
    let w = ws_count(s, pos);
    let q = pos + w;
    if q >= s.len() {
        Err(ErrModel::UnclosedBracket)
    } else if s[q] == ']' {
        Ok((Seq::empty(), (w + 1) as nat))
    } else if s[q] == '=' {
        Err(ErrModel::InvalidAttribute)
    } else {
        match spec_parse_identifier(s, q) {
            Err(e) => Err(e),
            Ok((name, u1)) => {
                let rv: Result<(Option<Seq<char>>, nat), ErrModel> = if q + u1 < s.len() && s[q
                    + u1] == '=' {
                    match spec_parse_attr_value(s, q + u1 + 1) {
                        Err(e) => Err(e),
                        Ok((v, uv)) => Ok((Some(v), (1 + uv) as nat)),
                    }
                } else {
                    Ok((None, 0))
                };
                match rv {
                    Err(e) => Err(e),
                    Ok((value, u2)) => {
                        let p2 = q + u1 + u2;
                        let w2 = ws_count(s, p2);
                        let u3: nat = if p2 + w2 < s.len() && s[p2 + w2] == ',' {
                            (w2 + 1) as nat
                        } else {
                            w2
                        };
                        match spec_parse_attr_items(s, p2 + u3) {
                            Err(e) => Err(e),
                            Ok((rest, u4)) => Ok(
                                (
                                    seq![AttrModel { name, value }] + rest,
                                    (w + u1 + u2 + u3 + u4) as nat,
                                ),
                            ),
                        }
                    },
                }
            },
        }
    }
}

/// One bracketed attribute list at `pos`: `[`, items, `]`.
pub open spec fn spec_parse_attrs(s: Seq<char>, pos: int) -> Result<(Seq<AttrModel>, nat), ErrModel> {
    if pos < s.len() && s[pos] == '[' {
        match spec_parse_attr_items(s, pos + 1) {
            Err(e) => Err(e),
            Ok((attrs, u)) => Ok((attrs, (1 + u) as nat)),
        }
    } else {
        Err(ErrModel::InvalidAttribute)
    }
}

/// All consecutive bracketed attribute lists at `pos`, concatenated.
pub open spec fn spec_parse_attr_groups(s: Seq<char>, pos: int) -> Result<(Seq<AttrModel>, nat), ErrModel>
    decreases rem(s, pos),
{
    if pos < s.len() && s[pos] == '[' {
        match spec_parse_attr_items(s, pos + 1) {
            Err(e) => Err(e),
            Ok((attrs, u1)) => match spec_parse_attr_groups(s, pos + 1 + u1) {
                Err(e) => Err(e),
                Ok((rest, u2)) => Ok((attrs + rest, (1 + u1 + u2) as nat)),
            },
        }
    } else {
        Ok((Seq::empty(), 0))
    }
}

/// The implicit tag used when an element names none.
pub open spec fn div_tag() -> Seq<char> {
    seq!['d', 'i', 'v']
}

/// The optional `#id` suffix at `pos`.
pub open spec fn spec_parse_id_part(s: Seq<char>, pos: int) -> Result<(Option<Seq<char>>, nat), ErrModel> {
    if pos < s.len() && s[pos] == '#' {
        match spec_parse_identifier(s, pos + 1) {
            Err(e) => Err(e),
            Ok((i, u)) => Ok((Some(i), (1 + u) as nat)),
        }
    } else {
        Ok((None, 0))
    }
}

/// The optional `{text}` suffix at `pos`.
pub open spec fn spec_parse_text_part(s: Seq<char>, pos: int) -> Result<(Option<Seq<char>>, nat), ErrModel> {
    if pos < s.len() && s[pos] == '{' {
        match spec_parse_text(s, pos) {
            Err(e) => Err(e),
            Ok((x, u)) => Ok((Some(x), u)),
        }
    } else {
        Ok((None, 0))
    }
}

/// The optional `*count` suffix at `pos`.
pub open spec fn spec_parse_mult_part(s: Seq<char>, pos: int) -> Result<(Option<u32>, nat), ErrModel> {
    if pos < s.len() && s[pos] == '*' {
        match spec_parse_number(s, pos + 1) {
            Err(e) => Err(e),
            Ok((v, u)) => Ok((Some(v), (1 + u) as nat)),
        }
    } else {
        Ok((None, 0))
    }
}

/// One element at `pos`: optional tag (default `div`), then `#id`,
/// `.class`es, `[attrs]`, `{text}`, `*count` and `>children`, strictly in
/// that order, each optional; matching stops at the first character that
/// does not open the next suffix.
#[verifier::opaque]
pub open spec fn spec_parse_element(s: Seq<char>, pos: int) -> Result<(ElemModel, nat), ErrModel>
    decreases rem(s, pos), 0int,
{
    let t = tag_count(s, pos);
    let tag: Seq<char> = if t > 0 {
        s.subrange(pos, pos + t)
    } else {
        div_tag()
    };
    match spec_parse_id_part(s, pos + t) {
        Err(e) => Err(e),
        Ok((id, u1)) => match spec_parse_classes(s, pos + t + u1) {
            Err(e) => Err(e),
            Ok((classes, u2)) => match spec_parse_attr_groups(s, pos + t + u1 + u2) {
                Err(e) => Err(e),
                Ok((attributes, u3)) => match spec_parse_text_part(s, pos + t + u1 + u2 + u3) {
                    Err(e) => Err(e),
                    Ok((text, u4)) => match spec_parse_mult_part(s, pos + t + u1 + u2 + u3 + u4) {
                        Err(e) => Err(e),
                        Ok((multiplier, u5)) => {
                            let p6 = pos + t + u1 + u2 + u3 + u4 + u5;
                            if p6 < s.len() && s[p6] == '>' {
                                match spec_parse_elements(s, p6 + 1) {
                                    Err(e) => Err(e),
                                    Ok((children, u6)) => Ok(
                                        (
                                            ElemModel {
                                                tag,
                                                id,
                                                classes,
                                                attributes,
                                                text,
                                                children,
                                                multiplier,
                                            },
                                            (t + u1 + u2 + u3 + u4 + u5 + 1 + u6) as nat,
                                        ),
                                    ),
                                }
                            } else {
                                Ok(
                                    (
                                        ElemModel {
                                            tag,
                                            id,
                                            classes,
                                            attributes,
                                            text,
                                            children: Seq::empty(),
                                            multiplier,
                                        },
                                        (t + u1 + u2 + u3 + u4 + u5) as nat,
                                    ),
                                )
                            }
                        },
                    },
                },
            },
        },
    }
}

/// A sibling list at `pos`: elements separated by `+` or whitespace.
/// A `+` joins the next element to the same list, so it attaches at the
/// nearest enclosing sibling list. The list ends at the end of the input
/// or at the first position where no element makes progress; an element
/// that consumed nothing is kept only when a `+` follows it.
pub open spec fn spec_parse_elements(s: Seq<char>, pos: int) -> Result<(Seq<ElemModel>, nat), ErrModel>
    decreases rem(s, pos), 1int,
{
    let w = ws_count(s, pos);
    let q = pos + w;
    if q >= s.len() {
        Ok((Seq::empty(), w))
    } else {
        match spec_parse_element(s, q) {
            Err(e) => Err(e),
            Ok((el, u1)) => {
                if q + u1 < s.len() && s[q + u1] == '+' {
                    match spec_parse_elements(s, q + u1 + 1) {
                        Err(e) => Err(e),
                        Ok((rest, u2)) => Ok((seq![el] + rest, (w + u1 + 1 + u2) as nat)),
                    }
                } else if u1 == 0 {
                    Ok((Seq::empty(), w))
                } else {
                    match spec_parse_elements(s, q + u1) {
                        Err(e) => Err(e),
                        Ok((rest, u2)) => Ok((seq![el] + rest, (w + u1 + u2) as nat)),
                    }
                }
            },
        }
    }
}

/// The parse of a whole abbreviation: the sibling trees, or the first error.
pub open spec fn spec_parse(s: Seq<char>) -> Result<Seq<ElemModel>, ErrModel> {
    match spec_parse_elements(s, 0) {
        Ok((elems, _)) => Ok(elems),
        Err(e) => Err(e),
    }
}

} // verus!
