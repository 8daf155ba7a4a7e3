//! A verified translator from Emmet-style abbreviations to markup text.
//!
//! An abbreviation such as `div#main.container>p{Hello}+span*2` is parsed
//! into a tree of element descriptors and then rendered as nested tags.
//! The parser and the renderer are both specified by spec-level functions
//! over character sequences, and the executable code is proved to return
//! exactly what those functions describe.

use vstd::prelude::*;

pub mod chars;
pub mod grammar;
pub mod laws;
pub mod model;
pub mod parser;
pub mod render;

pub use model::Attribute;
pub use model::AttrModel;
pub use model::ElemModel;
pub use model::EmmetElement;
pub use model::EmmetError;
pub use model::ErrModel;
pub use parser::EmmetParser;

use crate::grammar::spec_parse;
use crate::model::elem_models;
use crate::model::lemma_elem_models_index;
use crate::render::render_elems;

verus! {

/// Parses an abbreviation into its sibling element trees.
pub fn parse_emmet(input: &str) -> (r: Result<Vec<EmmetElement>, EmmetError>)
    ensures
        match r {
            Ok(v) => spec_parse(input@) == Ok::<Seq<ElemModel>, ErrModel>(elem_models(v@)),
            Err(e) => spec_parse(input@) == Err::<Seq<ElemModel>, ErrModel>(e.model()),
        },
{
    let mut parser = EmmetParser::new(input);
    parser.parse()
}

/// Parses an abbreviation and renders the resulting trees as markup.
pub fn emmet_to_html(input: &str) -> (r: Result<String, EmmetError>)
    ensures
        match r {
            Ok(h) => spec_parse(input@) matches Ok(ms) && h@ == render_elems(ms),
            Err(e) => spec_parse(input@) == Err::<Seq<ElemModel>, ErrModel>(e.model()),
        },
{
    let elements = match parse_emmet(input) {
        Ok(v) => v,
        Err(e) => {
            return Err(e);
        },
    };
    let mut html = String::new();
    proof {
        assert(render_elems(elem_models(elements@).subrange(0, 0)) =~= Seq::<char>::empty());
    }
    let mut i: usize = 0;
    while i < elements.len()
        invariant
            i <= elements.len(),
            spec_parse(input@) == Ok::<Seq<ElemModel>, ErrModel>(elem_models(elements@)),
            html@ == render_elems(elem_models(elements@).subrange(0, i as int)),
        decreases elements.len() - i,
    {
        let piece = elements[i].to_html();
        html.append(piece.as_str());
        proof {
            lemma_elem_models_index(elements@);
            let ms = elem_models(elements@);
            assert(ms.subrange(0, i as int + 1).subrange(0, i as int) =~= ms.subrange(0, i as int));
            assert(ms.subrange(0, i as int + 1)[i as int] == ms[i as int]);
            assert(html@ =~= render_elems(ms.subrange(0, i as int + 1)));
        }
        i = i + 1;
    }
    proof {
        lemma_elem_models_index(elements@);
        assert(elem_models(elements@).subrange(0, elements@.len() as int) =~= elem_models(
            elements@,
        ));
    }
    Ok(html)
}

} // verus!
