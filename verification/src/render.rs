//! Rendering of element trees as markup text.
//!
//! The spec functions below state the exact output character by character;
//! `to_html` and its helper are proved to return it.

use vstd::prelude::*;

use crate::model::AttrModel;
use crate::model::ElemModel;
use crate::model::EmmetElement;
use crate::model::attr_models;
use crate::model::elem_models;
use crate::model::lemma_elem_models_index;
use crate::model::string_views;

verus! {

/// How many copies of its single-instance rendering a node emits.
pub open spec fn count_of(m: ElemModel) -> nat {
    match m.multiplier {
        Some(n) => n as nat,
        None => 1,
    }
}

/// `n` concatenated copies of `x`.
pub open spec fn repeat_n(x: Seq<char>, n: nat) -> Seq<char>
    decreases n,
{
    if n == 0 {
        Seq::empty()
    } else {
        repeat_n(x, (n - 1) as nat) + x
    }
}

/// The ` id="..."` part, when an id is present.
pub open spec fn render_id(id: Option<Seq<char>>) -> Seq<char> {
    match id {
        Some(i) => seq![' ', 'i', 'd', '=', '"'] + i + seq!['"'],
        None => Seq::empty(),
    }
}

/// The class names joined by single spaces, in order.
pub open spec fn render_classes(cs: Seq<Seq<char>>) -> Seq<char>
    decreases cs.len(),
{
    if cs.len() == 0 {
        Seq::empty()
    } else if cs.len() == 1 {
        cs[0]
    } else {
        render_classes(cs.subrange(0, cs.len() - 1)) + seq![' '] + cs[cs.len() - 1]
    }
}

/// The ` class="..."` part, when any class is present.
pub open spec fn render_class_section(cs: Seq<Seq<char>>) -> Seq<char> {
    if cs.len() == 0 {
        Seq::empty()
    } else {
        seq![' ', 'c', 'l', 'a', 's', 's', '=', '"'] + render_classes(cs) + seq!['"']
    }
}

/// One attribute: ` name="value"`, or bare ` name` without a value.
pub open spec fn render_attr(a: AttrModel) -> Seq<char> {
    match a.value {
        Some(v) => seq![' '] + a.name + seq!['=', '"'] + v + seq!['"'],
        None => seq![' '] + a.name,
    }
}

/// All attributes, rendered in order.
pub open spec fn render_attrs(ats: Seq<AttrModel>) -> Seq<char>
    decreases ats.len(),
{
    if ats.len() == 0 {
        Seq::empty()
    } else {
        render_attrs(ats.subrange(0, ats.len() - 1)) + render_attr(ats[ats.len() - 1])
    }
}

/// The fixed set of tags rendered self-closing.
pub open spec fn is_self_closing(tag: Seq<char>) -> bool {
    ||| tag == seq!['i', 'm', 'g']
    ||| tag == seq!['i', 'n', 'p', 'u', 't']
    ||| tag == seq!['b', 'r']
    ||| tag == seq!['h', 'r']
    ||| tag == seq!['m', 'e', 't', 'a']
    ||| tag == seq!['l', 'i', 'n', 'k']
}

/// Inline text, or nothing.
pub open spec fn text_of(t: Option<Seq<char>>) -> Seq<char> {
    match t {
        Some(x) => x,
        None => Seq::empty(),
    }
}

/// The opening-tag part shared by every rendering: `<tag`, id, classes,
/// attributes.
pub open spec fn render_open(m: ElemModel) -> Seq<char> {
    seq!['<'] + m.tag + render_id(m.id) + render_class_section(m.classes) + render_attrs(
        m.attributes,
    )
}

/// One instance of a node. A self-closing tag ends with ` />` and never
/// renders text or children; any other tag renders `>`, its text, its
/// children in order, and a matching closing tag.
pub open spec fn render_once(m: ElemModel) -> Seq<char>
    decreases m, 0int,
{
    if is_self_closing(m.tag) {
        render_open(m) + seq![' ', '/', '>']
    } else {
        render_open(m) + seq!['>'] + text_of(m.text) + render_elems(m.children) + seq!['<', '/']
            + m.tag + seq!['>']
    }
}

/// A node's full rendering: its single instance repeated by its multiplier.
pub open spec fn render_elem(m: ElemModel) -> Seq<char>
    decreases m, 1int,
{
    repeat_n(render_once(m), count_of(m))
}

/// A list of trees, rendered in order with nothing in between.
pub open spec fn render_elems(ms: Seq<ElemModel>) -> Seq<char>
    decreases ms, 2int,
{
    if ms.len() == 0 {
        Seq::empty()
    } else {
        render_elems(ms.subrange(0, ms.len() - 1)) + render_elem(ms[ms.len() - 1])
    }
}

/// Decides membership in the self-closing set.
pub fn is_self_closing_tag(tag: &String) -> (r: bool)
    ensures
        r == is_self_closing(tag@),
{
    proof {
        reveal_strlit("img");
        reveal_strlit("input");
        reveal_strlit("br");
        reveal_strlit("hr");
        reveal_strlit("meta");
        reveal_strlit("link");
        assert("img"@ =~= seq!['i', 'm', 'g']);
        assert("input"@ =~= seq!['i', 'n', 'p', 'u', 't']);
        assert("br"@ =~= seq!['b', 'r']);
        assert("hr"@ =~= seq!['h', 'r']);
        assert("meta"@ =~= seq!['m', 'e', 't', 'a']);
        assert("link"@ =~= seq!['l', 'i', 'n', 'k']);
    }
    tag.eq(&String::from_str("img")) || tag.eq(&String::from_str("input")) || tag.eq(
        &String::from_str("br"),
    ) || tag.eq(&String::from_str("hr")) || tag.eq(&String::from_str("meta")) || tag.eq(
        &String::from_str("link"),
    )
}

impl EmmetElement {
    /// The markup for this node: its single-instance rendering repeated
    /// by its multiplier (absent means once, zero means nothing).
    pub fn to_html(&self) -> (h: String)
        ensures
            h@ == render_elem(self.model()),
        decreases self, 1int,
    {
        let count: u32 = match self.multiplier {
            Some(m) => m,
            None => 1,
        };
        let mut h = String::new();
        let mut i: u32 = 0;
        while i < count
            invariant
                i <= count,
                count as nat == count_of(self.model()),
                h@ == repeat_n(render_once(self.model()), i as nat),
            decreases count - i,
        {
            let piece = self.element_to_html();
            h.append(piece.as_str());
            i = i + 1;
        }
        h
    }

    /// One instance of this node, children fully rendered inside.
    fn element_to_html(&self) -> (h: String)
        ensures
            h@ == render_once(self.model()),
        decreases self, 0int,
    {
        let ghost m = self.model();
        let mut h = String::new();
        h.append("<");
        h.append(self.tag.as_str());
        proof {
            reveal_strlit("<");
            assert(h@ =~= seq!['<'] + m.tag);
        }
        match &self.id {
            Some(i) => {
                h.append(" id=\"");
                h.append(i.as_str());
                h.append("\"");
                proof {
                    reveal_strlit(" id=\"");
                    reveal_strlit("\"");
                    assert(" id=\""@ =~= seq![' ', 'i', 'd', '=', '"']);
                    assert("\""@ =~= seq!['"']);
                    assert(h@ =~= seq!['<'] + m.tag + render_id(m.id));
                }
            },
            None => {
                proof {
                    assert(h@ =~= seq!['<'] + m.tag + render_id(m.id));
                }
            },
        }
        let ghost pre_c = h@;
        if self.classes.len() > 0 {
            h.append(" class=\"");
            proof {
                reveal_strlit(" class=\"");
                assert(" class=\""@ =~= seq![' ', 'c', 'l', 'a', 's', 's', '=', '"']);
                assert(render_classes(string_views(self.classes@).subrange(0, 0)) =~= Seq::<
                    char,
                >::empty());
            }
            let mut k: usize = 0;
            while k < self.classes.len()
                invariant
                    k <= self.classes.len(),
                    pre_c == seq!['<'] + self.model().tag + render_id(self.model().id),
                    h@ == pre_c + seq![' ', 'c', 'l', 'a', 's', 's', '=', '"'] + render_classes(
                        string_views(self.classes@).subrange(0, k as int),
                    ),
                decreases self.classes.len() - k,
            {
                if k > 0 {
                    h.append(" ");
                    proof {
                        reveal_strlit(" ");
                        assert(" "@ =~= seq![' ']);
                    }
                }
                h.append(self.classes[k].as_str());
                proof {
                    let cs = string_views(self.classes@);
                    assert(cs[k as int] == self.classes@[k as int]@);
                    assert(cs.subrange(0, k as int + 1).subrange(0, k as int) =~= cs.subrange(
                        0,
                        k as int,
                    ));
                    assert(cs.subrange(0, k as int + 1)[k as int] == cs[k as int]);
                    assert(h@ =~= pre_c + seq![' ', 'c', 'l', 'a', 's', 's', '=', '"']
                        + render_classes(cs.subrange(0, k as int + 1)));
                }
                k = k + 1;
            }
            h.append("\"");
            proof {
                reveal_strlit("\"");
                assert("\""@ =~= seq!['"']);
                assert(string_views(self.classes@).subrange(0, self.classes@.len() as int)
                    =~= string_views(self.classes@));
                assert(h@ =~= pre_c + render_class_section(m.classes));
            }
        } else {
            proof {
                assert(m.classes.len() == 0);
                assert(h@ =~= pre_c + render_class_section(m.classes));
            }
        }
        let ghost pre_a = h@;
        proof {
            assert(render_attrs(attr_models(self.attributes@).subrange(0, 0)) =~= Seq::<
                char,
            >::empty());
        }
        let mut j: usize = 0;
        while j < self.attributes.len()
            invariant
                j <= self.attributes.len(),
                pre_a == seq!['<'] + self.model().tag + render_id(self.model().id)
                    + render_class_section(self.model().classes),
                h@ == pre_a + render_attrs(attr_models(self.attributes@).subrange(0, j as int)),
            decreases self.attributes.len() - j,
        {
            h.append(" ");
            h.append(self.attributes[j].name.as_str());
            match &self.attributes[j].value {
                Some(v) => {
                    h.append("=\"");
                    h.append(v.as_str());
                    h.append("\"");
                },
                None => {},
            }
            proof {
                reveal_strlit(" ");
                reveal_strlit("=\"");
                reveal_strlit("\"");
                assert(" "@ =~= seq![' ']);
                assert("=\""@ =~= seq!['=', '"']);
                assert("\""@ =~= seq!['"']);
                let ams = attr_models(self.attributes@);
                assert(ams[j as int] == self.attributes@[j as int].model());
                assert(ams.subrange(0, j as int + 1).subrange(0, j as int) =~= ams.subrange(
                    0,
                    j as int,
                ));
                assert(ams.subrange(0, j as int + 1)[j as int] == ams[j as int]);
                assert(h@ =~= pre_a + render_attrs(ams.subrange(0, j as int + 1)));
            }
            j = j + 1;
        }
        proof {
            assert(attr_models(self.attributes@).subrange(0, self.attributes@.len() as int)
                =~= attr_models(self.attributes@));
            assert(h@ =~= render_open(m));
        }
        let sc = is_self_closing_tag(&self.tag);
        if sc {
            h.append(" />");
            proof {
                reveal_strlit(" />");
                assert(" />"@ =~= seq![' ', '/', '>']);
                assert(h@ =~= render_once(m));
            }
            return h;
        }
        h.append(">");
        match &self.text {
            Some(t) => {
                h.append(t.as_str());
            },
            None => {},
        }
        proof {
            reveal_strlit(">");
            assert(">"@ =~= seq!['>']);
            assert(h@ =~= render_open(m) + seq!['>'] + text_of(m.text));
            assert(render_elems(elem_models(self.children@).subrange(0, 0)) =~= Seq::<
                char,
            >::empty());
        }
        let ghost pre_k = h@;
        let mut c: usize = 0;
        while c < self.children.len()
            invariant
                c <= self.children.len(),
                pre_k == render_open(self.model()) + seq!['>'] + text_of(self.model().text),
                h@ == pre_k + render_elems(elem_models(self.children@).subrange(0, c as int)),
            decreases self.children.len() - c,
        {
            let piece = self.children[c].to_html();
            h.append(piece.as_str());
            proof {
                lemma_elem_models_index(self.children@);
                let cm = elem_models(self.children@);
                assert(cm.subrange(0, c as int + 1).subrange(0, c as int) =~= cm.subrange(
                    0,
                    c as int,
                ));
                assert(cm.subrange(0, c as int + 1)[c as int] == cm[c as int]);
                assert(h@ =~= pre_k + render_elems(cm.subrange(0, c as int + 1)));
            }
            c = c + 1;
        }
        h.append("</");
        h.append(self.tag.as_str());
        h.append(">");
        proof {
            reveal_strlit("</");
            reveal_strlit(">");
            assert("</"@ =~= seq!['<', '/']);
            assert(">"@ =~= seq!['>']);
            lemma_elem_models_index(self.children@);
            assert(elem_models(self.children@).subrange(0, self.children@.len() as int)
                =~= elem_models(self.children@));
            assert(h@ =~= render_once(m));
        }
        h
    }
}

} // verus!
