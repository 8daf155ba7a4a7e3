//! Laws of the translator, proved once and for all inputs.

use vstd::prelude::*;

use crate::chars::is_space_char;
use crate::chars::digit_count;
use crate::chars::ident_count;
use crate::chars::scan_count;
use crate::chars::tag_count;
use crate::chars::until_count;
use crate::grammar::digits_value;
use crate::grammar::div_tag;
use crate::grammar::spec_parse_attr_groups;
use crate::grammar::spec_parse_classes;
use crate::grammar::spec_parse_element;
use crate::grammar::spec_parse_id_part;
use crate::grammar::spec_parse_identifier;
use crate::grammar::spec_parse_mult_part;
use crate::grammar::spec_parse_number;
use crate::grammar::spec_parse_text;
use crate::grammar::spec_parse_text_part;
use crate::render::render_classes;
use crate::render::render_id;

use crate::chars::ws_count;
use crate::grammar::spec_parse;
use crate::grammar::spec_parse_elements;
use crate::model::AttrModel;
use crate::model::ElemModel;
use crate::model::ErrModel;
use crate::render::count_of;
use crate::render::is_self_closing;
use crate::render::render_attr;
use crate::render::render_attrs;
use crate::render::render_elems;
use crate::render::render_elem;
use crate::render::render_once;
use crate::render::render_open;
use crate::render::repeat_n;

verus! {

proof fn lemma_ws_count_all(s: Seq<char>, pos: int)
    requires
        0 <= pos <= s.len(),
        forall|i: int| pos <= i < s.len() ==> is_space_char(s[i]),
    ensures
        ws_count(s, pos) == s.len() - pos,
    decreases s.len() - pos,
{
    if pos < s.len() {
        lemma_ws_count_all(s, pos + 1);
    }
}

/// Empty or all-whitespace input parses to an empty sibling list, whose
/// rendering is the empty string.
pub proof fn lemma_blank_input(s: Seq<char>)
    requires
        forall|i: int| 0 <= i < s.len() ==> is_space_char(s[i]),
    ensures
        spec_parse(s) == Ok::<Seq<ElemModel>, ErrModel>(Seq::<ElemModel>::empty()),
        render_elems(Seq::<ElemModel>::empty()) == Seq::<char>::empty(),
{
    lemma_ws_count_all(s, 0);
    assert(spec_parse_elements(s, 0) == Ok::<(Seq<ElemModel>, nat), ErrModel>(
        (Seq::empty(), s.len()),
    ));
}

/// The multiplier law: a node's output is its multiplier's worth of copies
/// of the output of the same node with multiplier one; no multiplier means
/// one copy, and multiplier zero means the empty string.
pub proof fn lemma_multiplier_law(m: ElemModel)
    ensures
        render_elem(m) == repeat_n(render_elem(ElemModel { multiplier: Some(1u32), ..m }), count_of(m)),
        render_elem(ElemModel { multiplier: Some(1u32), ..m }) == render_once(m),
        m.multiplier == None::<u32> ==> render_elem(m) == render_once(m),
        m.multiplier == Some(0u32) ==> render_elem(m) == Seq::<char>::empty(),
{
    let m1 = ElemModel { multiplier: Some(1u32), ..m };
    assert(render_once(m1) == render_once(m));
    assert(render_elem(m1) == repeat_n(render_once(m), 1));
    assert(repeat_n(render_once(m), 0) == Seq::<char>::empty());
    assert(Seq::<char>::empty() + render_once(m) =~= render_once(m));
    assert(render_elem(m1) == render_once(m));
    if m.multiplier is None {
        assert(count_of(m) == 1);
        assert(render_elem(m) == repeat_n(render_once(m), 1));
    }
}

/// Self-closing exclusivity: a node whose tag is in the self-closing set
/// renders as its opening part followed by ` />`, ends in ` />`, and its
/// rendering never depends on its text or its children.
pub proof fn lemma_self_closing_exclusive(m: ElemModel)
    requires
        is_self_closing(m.tag),
    ensures
        render_once(m) == render_open(m) + seq![' ', '/', '>'],
        render_once(m) == render_once(
            ElemModel { text: None, children: Seq::<ElemModel>::empty(), ..m },
        ),
        render_once(m).len() >= 3,
        render_once(m).subrange(
            render_once(m).len() - 3,
            render_once(m).len() as int,
        ) == seq![' ', '/', '>'],
{
    let stripped = ElemModel { text: None, children: Seq::<ElemModel>::empty(), ..m };
    assert(render_open(stripped) == render_open(m));
    assert(render_once(stripped) == render_open(m) + seq![' ', '/', '>']);
    let r = render_once(m);
    assert(r.subrange(r.len() - 3, r.len() as int) =~= seq![' ', '/', '>']);
}

/// The rendering of an attribute list splits at any point into the
/// renderings of the two halves, in order.
pub proof fn lemma_attrs_split(ats: Seq<AttrModel>, i: int)
    requires
        0 <= i <= ats.len(),
    ensures
        render_attrs(ats) == render_attrs(ats.subrange(0, i)) + render_attrs(
            ats.subrange(i, ats.len() as int),
        ),
    decreases ats.len(),
{
    if i == ats.len() {
        assert(ats.subrange(0, i) =~= ats);
        assert(ats.subrange(i, ats.len() as int) =~= Seq::<AttrModel>::empty());
        assert(render_attrs(Seq::<AttrModel>::empty()) == Seq::<char>::empty());
        assert(render_attrs(ats) + Seq::<char>::empty() =~= render_attrs(ats));
    } else {
        let n = ats.len() as int;
        let pre = ats.subrange(0, n - 1);
        lemma_attrs_split(pre, i);
        assert(pre.subrange(0, i) =~= ats.subrange(0, i));
        let right = ats.subrange(i, n);
        assert(right.len() > 0);
        assert(right.subrange(0, right.len() - 1) =~= pre.subrange(i, n - 1));
        assert(right[right.len() - 1] == ats[n - 1]);
        assert(render_attrs(right) == render_attrs(pre.subrange(i, n - 1)) + render_attr(
            ats[n - 1],
        ));
        assert(render_attrs(ats.subrange(0, i)) + render_attrs(right) =~= (render_attrs(
            ats.subrange(0, i),
        ) + render_attrs(pre.subrange(i, n - 1))) + render_attr(ats[n - 1]));
    }
}

/// Attribute order preservation: each attribute's rendering stands between
/// the renderings of the attributes before it and those after it.
pub proof fn lemma_attr_order(ats: Seq<AttrModel>, i: int)
    requires
        0 <= i < ats.len(),
    ensures
        render_attrs(ats) == render_attrs(ats.subrange(0, i)) + render_attr(ats[i])
            + render_attrs(ats.subrange(i + 1, ats.len() as int)),
{
    lemma_attrs_split(ats, i + 1);
    let pre = ats.subrange(0, i + 1);
    assert(render_attrs(pre) == render_attrs(pre.subrange(0, i)) + render_attr(pre[i]));
    assert(pre.subrange(0, i) =~= ats.subrange(0, i));
    assert(pre[i] == ats[i]);
    assert((render_attrs(ats.subrange(0, i)) + render_attr(ats[i])) + render_attrs(
        ats.subrange(i + 1, ats.len() as int),
    ) =~= render_attrs(ats.subrange(0, i)) + render_attr(ats[i]) + render_attrs(
        ats.subrange(i + 1, ats.len() as int),
    ));
}

/// The models that the worked example parses to: the `p{Hello}` node, the
/// `span.world*2` node, and the outer `div#main.container` holding both.
pub open spec fn example_models() -> Seq<ElemModel> {
    let pm = (ElemModel {
        tag: seq!['p'],
        id: None,
        classes: Seq::empty(),
        attributes: Seq::empty(),
        text: Some(seq!['H', 'e', 'l', 'l', 'o']),
        children: Seq::empty(),
        multiplier: None,
    });
    let sm = (ElemModel {
        tag: seq!['s', 'p', 'a', 'n'],
        id: None,
        classes: seq![seq!['w', 'o', 'r', 'l', 'd']],
        attributes: Seq::empty(),
        text: None,
        children: Seq::empty(),
        multiplier: Some(2u32),
    });
    let dm = (ElemModel {
        tag: div_tag(),
        id: Some(seq!['m', 'a', 'i', 'n']),
        classes: seq![seq!['c', 'o', 'n', 't', 'a', 'i', 'n', 'e', 'r']],
        attributes: Seq::empty(),
        text: None,
        children: seq![pm, sm],
        multiplier: None,
    });
    seq![dm]
}

proof fn lemma_worked_example_parse()
    ensures
        ({
            let s = seq![
                'd', 'i', 'v', '#', 'm', 'a', 'i', 'n', '.', 'c', 'o', 'n', 't', 'a', 'i', 'n', 'e',
                'r', '>', 'p', '{', 'H', 'e', 'l', 'l', 'o', '}', '+', 's', 'p', 'a', 'n', '.', 'w',
                'o', 'r', 'l', 'd', '*', '2',
            ];
            spec_parse(s) == Ok::<Seq<ElemModel>, ErrModel>(example_models())
        }),
{
    let s = seq![
        'd', 'i', 'v', '#', 'm', 'a', 'i', 'n', '.', 'c', 'o', 'n', 't', 'a', 'i', 'n', 'e',
        'r', '>', 'p', '{', 'H', 'e', 'l', 'l', 'o', '}', '+', 's', 'p', 'a', 'n', '.', 'w',
        'o', 'r', 'l', 'd', '*', '2',
    ];
    let main_s = seq!['m', 'a', 'i', 'n'];
    let container_s = seq!['c', 'o', 'n', 't', 'a', 'i', 'n', 'e', 'r'];
    let hello_s = seq!['H', 'e', 'l', 'l', 'o'];
    let world_s = seq!['w', 'o', 'r', 'l', 'd'];
    let p_s = seq!['p'];
    let span_s = seq!['s', 'p', 'a', 'n'];
    let pm = ElemModel {
        tag: p_s,
        id: None,
        classes: Seq::empty(),
        attributes: Seq::empty(),
        text: Some(hello_s),
        children: Seq::empty(),
        multiplier: None,
    };
    let sm = ElemModel {
        tag: span_s,
        id: None,
        classes: seq![world_s],
        attributes: Seq::empty(),
        text: None,
        children: Seq::empty(),
        multiplier: Some(2u32),
    };
    let dm = ElemModel {
        tag: div_tag(),
        id: Some(main_s),
        classes: seq![container_s],
        attributes: Seq::empty(),
        text: None,
        children: seq![pm, sm],
        multiplier: None,
    };

    // the scans of the input
    assert(tag_count(s, 0) == 3) by {
        reveal_with_fuel(scan_count, 5);
    }
    assert(ident_count(s, 4) == 4) by {
        reveal_with_fuel(scan_count, 6);
    }
    assert(ident_count(s, 9) == 9) by {
        reveal_with_fuel(scan_count, 11);
    }
    assert(tag_count(s, 19) == 1) by {
        reveal_with_fuel(scan_count, 3);
    }
    assert(until_count(s, 21, '}') == 5) by {
        reveal_with_fuel(until_count, 7);
    }
    assert(tag_count(s, 28) == 4) by {
        reveal_with_fuel(scan_count, 6);
    }
    assert(ident_count(s, 33) == 5) by {
        reveal_with_fuel(scan_count, 7);
    }
    assert(digit_count(s, 39) == 1) by {
        reveal_with_fuel(scan_count, 3);
    }
    assert(ws_count(s, 0) == 0 && ws_count(s, 19) == 0 && ws_count(s, 28) == 0 && ws_count(
        s,
        40,
    ) == 0) by {
        reveal_with_fuel(scan_count, 2);
    }
    assert(digits_value(s, 39, 40) == 2) by {
        reveal_with_fuel(digits_value, 3);
    }
    // the outer div's own suffixes
    assert(s.subrange(0, 3) =~= div_tag());
    assert(s.subrange(4, 8) =~= main_s);
    assert(s.subrange(9, 18) =~= container_s);
    assert(spec_parse_identifier(s, 4) == Ok::<(Seq<char>, nat), ErrModel>((main_s, 4nat)));
    assert(spec_parse_id_part(s, 3) == Ok::<(Option<Seq<char>>, nat), ErrModel>(
        (Some(main_s), 5nat),
    ));
    assert(spec_parse_identifier(s, 9) == Ok::<(Seq<char>, nat), ErrModel>((container_s, 9nat)));
    assert(spec_parse_classes(s, 18) == Ok::<(Seq<Seq<char>>, nat), ErrModel>(
        (Seq::empty(), 0nat),
    ));
    assert(seq![container_s] + Seq::<Seq<char>>::empty() =~= seq![container_s]);
    assert(spec_parse_classes(s, 8) == Ok::<(Seq<Seq<char>>, nat), ErrModel>(
        (seq![container_s], 10nat),
    ));
    assert(spec_parse_attr_groups(s, 18) == Ok::<(Seq<AttrModel>, nat), ErrModel>(
        (Seq::empty(), 0nat),
    ));
    assert(spec_parse_text_part(s, 18) == Ok::<(Option<Seq<char>>, nat), ErrModel>((None, 0nat)));
    assert(spec_parse_mult_part(s, 18) == Ok::<(Option<u32>, nat), ErrModel>((None, 0nat)));
    // the p child
    assert(s.subrange(19, 20) =~= p_s);
    assert(s.subrange(21, 26) =~= hello_s);
    assert(spec_parse_id_part(s, 20) == Ok::<(Option<Seq<char>>, nat), ErrModel>((None, 0nat)));
    assert(spec_parse_classes(s, 20) == Ok::<(Seq<Seq<char>>, nat), ErrModel>(
        (Seq::empty(), 0nat),
    ));
    assert(spec_parse_attr_groups(s, 20) == Ok::<(Seq<AttrModel>, nat), ErrModel>(
        (Seq::empty(), 0nat),
    ));
    assert(spec_parse_text(s, 20) == Ok::<(Seq<char>, nat), ErrModel>((hello_s, 7nat)));
    assert(spec_parse_text_part(s, 20) == Ok::<(Option<Seq<char>>, nat), ErrModel>(
        (Some(hello_s), 7nat),
    ));
    assert(spec_parse_mult_part(s, 27) == Ok::<(Option<u32>, nat), ErrModel>((None, 0nat)));
    assert(spec_parse_element(s, 19) == Ok::<(ElemModel, nat), ErrModel>((pm, 8nat))) by {
        reveal(spec_parse_element);
    }
    // the span child
    assert(s.subrange(28, 32) =~= span_s);
    assert(s.subrange(33, 38) =~= world_s);
    assert(spec_parse_id_part(s, 32) == Ok::<(Option<Seq<char>>, nat), ErrModel>((None, 0nat)));
    assert(spec_parse_identifier(s, 33) == Ok::<(Seq<char>, nat), ErrModel>((world_s, 5nat)));
    assert(spec_parse_classes(s, 38) == Ok::<(Seq<Seq<char>>, nat), ErrModel>(
        (Seq::empty(), 0nat),
    ));
    assert(seq![world_s] + Seq::<Seq<char>>::empty() =~= seq![world_s]);
    assert(spec_parse_classes(s, 32) == Ok::<(Seq<Seq<char>>, nat), ErrModel>(
        (seq![world_s], 6nat),
    ));
    assert(spec_parse_attr_groups(s, 38) == Ok::<(Seq<AttrModel>, nat), ErrModel>(
        (Seq::empty(), 0nat),
    ));
    assert(spec_parse_text_part(s, 38) == Ok::<(Option<Seq<char>>, nat), ErrModel>((None, 0nat)));
    assert(spec_parse_number(s, 39) == Ok::<(u32, nat), ErrModel>((2u32, 1nat)));
    assert(spec_parse_mult_part(s, 38) == Ok::<(Option<u32>, nat), ErrModel>(
        (Some(2u32), 2nat),
    ));
    assert(spec_parse_element(s, 28) == Ok::<(ElemModel, nat), ErrModel>((sm, 12nat))) by {
        reveal(spec_parse_element);
    }
    // the sibling list of the div's children
    assert(spec_parse_elements(s, 40) == Ok::<(Seq<ElemModel>, nat), ErrModel>(
        (Seq::empty(), 0nat),
    ));
    assert(seq![sm] + Seq::<ElemModel>::empty() =~= seq![sm]);
    assert(spec_parse_elements(s, 28) == Ok::<(Seq<ElemModel>, nat), ErrModel>(
        (seq![sm], 12nat),
    )) by {
        reveal_with_fuel(spec_parse_elements, 2);
    }
    assert(seq![pm] + seq![sm] =~= seq![pm, sm]);
    assert(spec_parse_elements(s, 19) == Ok::<(Seq<ElemModel>, nat), ErrModel>(
        (seq![pm, sm], 21nat),
    )) by {
        reveal_with_fuel(spec_parse_elements, 2);
    }
    // the whole parse
    assert(spec_parse_element(s, 0) == Ok::<(ElemModel, nat), ErrModel>((dm, 40nat))) by {
        reveal(spec_parse_element);
    }
    assert(seq![dm] + Seq::<ElemModel>::empty() =~= seq![dm]);
    assert(spec_parse_elements(s, 0) == Ok::<(Seq<ElemModel>, nat), ErrModel>(
        (seq![dm], 40nat),
    )) by {
        reveal_with_fuel(spec_parse_elements, 2);
    }
    assert(spec_parse(s) == Ok::<Seq<ElemModel>, ErrModel>(seq![dm]));
    assert(seq![dm] =~= example_models());
}

proof fn lemma_worked_example_render()
    ensures
        ({
            let out = seq![
                '<', 'd', 'i', 'v', ' ', 'i', 'd', '=', '"', 'm', 'a', 'i', 'n', '"', ' ', 'c', 'l',
                'a', 's', 's', '=', '"', 'c', 'o', 'n', 't', 'a', 'i', 'n', 'e', 'r', '"', '>', '<',
                'p', '>', 'H', 'e', 'l', 'l', 'o', '<', '/', 'p', '>', '<', 's', 'p', 'a', 'n', ' ',
                'c', 'l', 'a', 's', 's', '=', '"', 'w', 'o', 'r', 'l', 'd', '"', '>', '<', '/', 's',
                'p', 'a', 'n', '>', '<', 's', 'p', 'a', 'n', ' ', 'c', 'l', 'a', 's', 's', '=', '"',
                'w', 'o', 'r', 'l', 'd', '"', '>', '<', '/', 's', 'p', 'a', 'n', '>', '<', '/', 'd',
                'i', 'v', '>',
            ];
            render_elems(example_models()) == out
        }),
{
    let out = seq![
        '<', 'd', 'i', 'v', ' ', 'i', 'd', '=', '"', 'm', 'a', 'i', 'n', '"', ' ', 'c', 'l',
        'a', 's', 's', '=', '"', 'c', 'o', 'n', 't', 'a', 'i', 'n', 'e', 'r', '"', '>', '<',
        'p', '>', 'H', 'e', 'l', 'l', 'o', '<', '/', 'p', '>', '<', 's', 'p', 'a', 'n', ' ',
        'c', 'l', 'a', 's', 's', '=', '"', 'w', 'o', 'r', 'l', 'd', '"', '>', '<', '/', 's',
        'p', 'a', 'n', '>', '<', 's', 'p', 'a', 'n', ' ', 'c', 'l', 'a', 's', 's', '=', '"',
        'w', 'o', 'r', 'l', 'd', '"', '>', '<', '/', 's', 'p', 'a', 'n', '>', '<', '/', 'd',
        'i', 'v', '>',
    ];
    let main_s = seq!['m', 'a', 'i', 'n'];
    let container_s = seq!['c', 'o', 'n', 't', 'a', 'i', 'n', 'e', 'r'];
    let hello_s = seq!['H', 'e', 'l', 'l', 'o'];
    let world_s = seq!['w', 'o', 'r', 'l', 'd'];
    let p_s = seq!['p'];
    let span_s = seq!['s', 'p', 'a', 'n'];
    let pm = ElemModel {
        tag: p_s,
        id: None,
        classes: Seq::empty(),
        attributes: Seq::empty(),
        text: Some(hello_s),
        children: Seq::empty(),
        multiplier: None,
    };
    let sm = ElemModel {
        tag: span_s,
        id: None,
        classes: seq![world_s],
        attributes: Seq::empty(),
        text: None,
        children: Seq::empty(),
        multiplier: Some(2u32),
    };
    let dm = ElemModel {
        tag: div_tag(),
        id: Some(main_s),
        classes: seq![container_s],
        attributes: Seq::empty(),
        text: None,
        children: seq![pm, sm],
        multiplier: None,
    };

    // none of the three tags is self-closing
    assert(!is_self_closing(p_s));
    assert(!is_self_closing(span_s)) by {
        assert(span_s[0] == 's');
        assert(seq!['m', 'e', 't', 'a'][0] == 'm');
        assert(seq!['l', 'i', 'n', 'k'][0] == 'l');
    }
    assert(!is_self_closing(div_tag())) by {
        assert(div_tag()[0] == 'd');
        assert(seq!['i', 'm', 'g'][0] == 'i');
    }
    // the rendering, innermost first
    let p_once = seq![
        '<', 'p', '>', 'H', 'e', 'l', 'l', 'o', '<', '/', 'p', '>',
    ];
    let span_once = seq![
        '<', 's', 'p', 'a', 'n', ' ', 'c', 'l', 'a', 's', 's', '=', '"', 'w', 'o', 'r', 'l',
        'd', '"', '>', '<', '/', 's', 'p', 'a', 'n', '>',
    ];
    assert(render_open(pm) =~= seq!['<', 'p']);
    assert(render_once(pm) =~= p_once);
    assert(render_elem(pm) =~= p_once) by {
        reveal_with_fuel(repeat_n, 3);
        assert(Seq::<char>::empty() + render_once(pm) =~= render_once(pm));
    }
    assert(render_classes(seq![world_s]) == world_s);
    assert(render_open(sm) =~= seq![
        '<', 's', 'p', 'a', 'n', ' ', 'c', 'l', 'a', 's', 's', '=', '"', 'w', 'o', 'r', 'l',
        'd', '"',
    ]);
    assert(render_once(sm) =~= span_once);
    assert(render_elem(sm) =~= span_once + span_once) by {
        reveal_with_fuel(repeat_n, 4);
        assert((Seq::<char>::empty() + render_once(sm)) + render_once(sm) =~= render_once(sm)
            + render_once(sm));
    }
    assert(seq![pm, sm].subrange(0, 1) =~= seq![pm]);
    assert(seq![pm].subrange(0, 0) =~= Seq::<ElemModel>::empty());
    assert(render_elems(seq![pm]) =~= p_once) by {
        reveal_with_fuel(render_elems, 3);
        assert(Seq::<char>::empty() + render_elem(pm) =~= render_elem(pm));
    }
    assert(render_elems(seq![pm, sm]) =~= p_once + (span_once + span_once));
    assert(render_id(Some(main_s)) =~= seq![
        ' ', 'i', 'd', '=', '"', 'm', 'a', 'i', 'n', '"',
    ]);
    assert(render_classes(seq![container_s]) == container_s);
    assert(render_open(dm) =~= seq![
        '<', 'd', 'i', 'v', ' ', 'i', 'd', '=', '"', 'm', 'a', 'i', 'n', '"', ' ', 'c', 'l',
        'a', 's', 's', '=', '"', 'c', 'o', 'n', 't', 'a', 'i', 'n', 'e', 'r', '"',
    ]);
    assert(render_once(dm) =~= out);
    assert(render_elem(dm) =~= out) by {
        reveal_with_fuel(repeat_n, 3);
        assert(Seq::<char>::empty() + render_once(dm) =~= render_once(dm));
    }
    assert(seq![dm].subrange(0, 0) =~= Seq::<ElemModel>::empty());
    assert(render_elems(seq![dm]) =~= out) by {
        reveal_with_fuel(render_elems, 2);
        assert(Seq::<char>::empty() + render_elem(dm) =~= render_elem(dm));
    }
    assert(seq![dm] =~= example_models());
}

/// The worked example: `div#main.container>p{Hello}+span.world*2` parses
/// to a single `div` tree whose two children are the `p` and the doubled
/// `span` — all nested inside the outer `div` — and renders to exactly
/// `<div id="main" class="container"><p>Hello</p><span class="world"></span><span class="world"></span></div>`.
pub proof fn lemma_worked_example()
    ensures
        ({
            let s = seq![
                'd', 'i', 'v', '#', 'm', 'a', 'i', 'n', '.', 'c', 'o', 'n', 't', 'a', 'i', 'n', 'e',
                'r', '>', 'p', '{', 'H', 'e', 'l', 'l', 'o', '}', '+', 's', 'p', 'a', 'n', '.', 'w',
                'o', 'r', 'l', 'd', '*', '2',
            ];
            let out = seq![
                '<', 'd', 'i', 'v', ' ', 'i', 'd', '=', '"', 'm', 'a', 'i', 'n', '"', ' ', 'c', 'l',
                'a', 's', 's', '=', '"', 'c', 'o', 'n', 't', 'a', 'i', 'n', 'e', 'r', '"', '>', '<',
                'p', '>', 'H', 'e', 'l', 'l', 'o', '<', '/', 'p', '>', '<', 's', 'p', 'a', 'n', ' ',
                'c', 'l', 'a', 's', 's', '=', '"', 'w', 'o', 'r', 'l', 'd', '"', '>', '<', '/', 's',
                'p', 'a', 'n', '>', '<', 's', 'p', 'a', 'n', ' ', 'c', 'l', 'a', 's', 's', '=', '"',
                'w', 'o', 'r', 'l', 'd', '"', '>', '<', '/', 's', 'p', 'a', 'n', '>', '<', '/', 'd',
                'i', 'v', '>',
            ];
            &&& spec_parse(s) matches Ok(ms)
            &&& ms.len() == 1
            &&& ms[0].tag == seq!['d', 'i', 'v']
            &&& ms[0].children.len() == 2
            &&& ms[0].children[0].tag == seq!['p']
            &&& ms[0].children[1].tag == seq!['s', 'p', 'a', 'n']
            &&& ms[0].children[1].multiplier == Some(2u32)
            &&& render_elems(ms) == out
        }),
{
    lemma_worked_example_parse();
    lemma_worked_example_render();
    let ms = example_models();
    assert(ms[0].tag =~= seq!['d', 'i', 'v']);
    assert(ms[0].children[0].tag =~= seq!['p']);
    assert(ms[0].children[1].tag =~= seq!['s', 'p', 'a', 'n']);
}

/// The classes after the given one, each preceded by one separating space.
pub open spec fn spaced(cs: Seq<Seq<char>>) -> Seq<char>
    decreases cs.len(),
{
    if cs.len() == 0 {
        Seq::empty()
    } else {
        spaced(cs.subrange(0, cs.len() - 1)) + seq![' '] + cs[cs.len() - 1]
    }
}

proof fn lemma_classes_head(cs: Seq<Seq<char>>)
    requires
        cs.len() >= 1,
    ensures
        render_classes(cs) == cs[0] + spaced(cs.subrange(1, cs.len() as int)),
    decreases cs.len(),
{
    let n = cs.len() as int;
    if n == 1 {
        assert(cs.subrange(1, 1) =~= Seq::<Seq<char>>::empty());
        assert(spaced(Seq::<Seq<char>>::empty()) == Seq::<char>::empty());
        assert(cs[0] + Seq::<char>::empty() =~= cs[0]);
    } else {
        let pre = cs.subrange(0, n - 1);
        lemma_classes_head(pre);
        assert(pre[0] == cs[0]);
        let tail = cs.subrange(1, n);
        assert(tail.len() > 0);
        assert(tail.subrange(0, tail.len() - 1) =~= pre.subrange(1, n - 1));
        assert(tail[tail.len() - 1] == cs[n - 1]);
        assert(spaced(tail) == spaced(pre.subrange(1, n - 1)) + seq![' '] + cs[n - 1]);
        assert((cs[0] + spaced(pre.subrange(1, n - 1))) + seq![' '] + cs[n - 1] =~= cs[0] + (spaced(
            pre.subrange(1, n - 1),
        ) + seq![' '] + cs[n - 1]));
    }
}

proof fn lemma_spaced_split(a: Seq<Seq<char>>, b: Seq<Seq<char>>)
    ensures
        spaced(a + b) == spaced(a) + spaced(b),
    decreases b.len(),
{
    if b.len() == 0 {
        assert(a + b =~= a);
        assert(spaced(a) + Seq::<char>::empty() =~= spaced(a));
    } else {
        let n = b.len() as int;
        lemma_spaced_split(a, b.subrange(0, n - 1));
        let ab = a + b;
        assert(ab.len() > 0);
        assert(ab.subrange(0, ab.len() - 1) =~= a + b.subrange(0, n - 1));
        assert(ab[ab.len() - 1] == b[n - 1]);
        assert(spaced(ab) == spaced(a + b.subrange(0, n - 1)) + seq![' '] + b[n - 1]);
        assert((spaced(a) + spaced(b.subrange(0, n - 1))) + seq![' '] + b[n - 1] =~= spaced(a) + (
        spaced(b.subrange(0, n - 1)) + seq![' '] + b[n - 1]));
    }
}

/// Class order preservation: the space-joined class list renders every
/// prefix first, with the remaining classes following in order, each
/// preceded by its separating space.
pub proof fn lemma_class_order(cs: Seq<Seq<char>>, i: int)
    requires
        0 <= i < cs.len(),
    ensures
        render_classes(cs) == render_classes(cs.subrange(0, i + 1)) + spaced(
            cs.subrange(i + 1, cs.len() as int),
        ),
{
    let n = cs.len() as int;
    lemma_classes_head(cs);
    let pre = cs.subrange(0, i + 1);
    lemma_classes_head(pre);
    assert(pre[0] == cs[0]);
    lemma_spaced_split(pre.subrange(1, i + 1), cs.subrange(i + 1, n));
    assert(pre.subrange(1, i + 1) + cs.subrange(i + 1, n) =~= cs.subrange(1, n));
    assert(pre.subrange(1, i + 1) =~= cs.subrange(1, i + 1));
    assert(cs[0] + (spaced(cs.subrange(1, i + 1)) + spaced(cs.subrange(i + 1, n))) =~= (cs[0]
        + spaced(cs.subrange(1, i + 1))) + spaced(cs.subrange(i + 1, n)));
}

} // verus!
