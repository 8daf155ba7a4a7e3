//! The element tree produced by the parser, the errors, and the
//! mathematical models that the contracts speak of.

use vstd::prelude::*;

verus! {

/// Why an abbreviation was rejected.
#[derive(Debug)]
pub enum EmmetError {
    /// A structural expectation was violated: a required identifier or
    /// number is absent, or a text block does not start with `{`.
    InvalidSyntax(String),
    /// A `[`, `{` or quoted attribute value was opened but never closed.
    UnclosedBracket,
    /// An attribute failed to parse: the list does not open with `[`,
    /// a name is missing before `=`, or an unquoted value is empty.
    InvalidAttribute,
}

/// The model of an error: the same three kinds, over character sequences.
#[verifier::ext_equal]
pub ghost enum ErrModel {
    InvalidSyntax(Seq<char>),
    UnclosedBracket,
    InvalidAttribute,
}

impl EmmetError {
    pub open spec fn model(&self) -> ErrModel {
        match self {
            EmmetError::InvalidSyntax(d) => ErrModel::InvalidSyntax(d@),
            EmmetError::UnclosedBracket => ErrModel::UnclosedBracket,
            EmmetError::InvalidAttribute => ErrModel::InvalidAttribute,
        }
    }

    /// A human-readable description of the error.
    pub fn message(&self) -> (m: String)
        ensures
            m@ == match self.model() {
                ErrModel::InvalidSyntax(d) => "Invalid syntax: "@ + d,
                ErrModel::UnclosedBracket => "Unclosed bracket"@,
                ErrModel::InvalidAttribute => "Invalid attribute syntax"@,
            },
    {
        match self {
            EmmetError::InvalidSyntax(d) => {
                String::from_str("Invalid syntax: ").concat(d.as_str())
            },
            EmmetError::UnclosedBracket => String::from_str("Unclosed bracket"),
            EmmetError::InvalidAttribute => String::from_str("Invalid attribute syntax"),
        }
    }
}

/// One attribute: a name, and an optional value.
#[derive(Debug, Clone, PartialEq)]
pub struct Attribute {
    pub name: String,
    pub value: Option<String>,
}

/// The model of an attribute.
#[verifier::ext_equal]
pub ghost struct AttrModel {
    pub name: Seq<char>,
    pub value: Option<Seq<char>>,
}

impl Attribute {
    pub open spec fn model(&self) -> AttrModel {
        AttrModel { name: self.name@, value: str_opt_model(self.value) }
    }
}

pub open spec fn str_opt_model(o: Option<String>) -> Option<Seq<char>> {
    match o {
        Some(s) => Some(s@),
        None => None,
    }
}

/// The character sequences of a sequence of strings, in order.
pub open spec fn string_views(s: Seq<String>) -> Seq<Seq<char>> {
    Seq::new(s.len(), |i: int| s[i]@)
}

/// The models of a sequence of attributes, in order.
pub open spec fn attr_models(s: Seq<Attribute>) -> Seq<AttrModel> {
    Seq::new(s.len(), |i: int| s[i].model())
}

/// One node of the abbreviation tree.
#[derive(Debug, PartialEq)]
pub struct EmmetElement {
    pub tag: String,
    pub id: Option<String>,
    pub classes: Vec<String>,
    pub attributes: Vec<Attribute>,
    pub text: Option<String>,
    pub children: Vec<EmmetElement>,
    pub multiplier: Option<u32>,
}

/// The model of an element: the same shape, over character sequences.
#[verifier::ext_equal]
pub ghost struct ElemModel {
    pub tag: Seq<char>,
    pub id: Option<Seq<char>>,
    pub classes: Seq<Seq<char>>,
    pub attributes: Seq<AttrModel>,
    pub text: Option<Seq<char>>,
    pub children: Seq<ElemModel>,
    pub multiplier: Option<u32>,
}

impl EmmetElement {
    pub open spec fn model(&self) -> ElemModel
        decreases self,
    {
        ElemModel {
            tag: self.tag@,
            id: str_opt_model(self.id),
            classes: string_views(self.classes@),
            attributes: attr_models(self.attributes@),
            text: str_opt_model(self.text),
            children: elem_models(self.children@),
            multiplier: self.multiplier,
        }
    }

    /// A fresh element with the given tag and everything else absent.
    pub fn new(tag: &str) -> (e: Self)
        ensures
            e.model() == (ElemModel {
                tag: tag@,
                id: None,
                classes: Seq::<Seq<char>>::empty(),
                attributes: Seq::<AttrModel>::empty(),
                text: None,
                children: Seq::<ElemModel>::empty(),
                multiplier: None,
            }),
    {
        let e = Self {
            tag: tag.to_owned(),
            id: None,
            classes: Vec::new(),
            attributes: Vec::new(),
            text: None,
            children: Vec::new(),
            multiplier: None,
        };
        proof {
            assert(string_views(e.classes@) =~= Seq::<Seq<char>>::empty());
            assert(attr_models(e.attributes@) =~= Seq::<AttrModel>::empty());
            assert(elem_models(e.children@) =~= Seq::<ElemModel>::empty());
            assert(e.model() =~= (ElemModel {
                tag: tag@,
                id: None,
                classes: Seq::<Seq<char>>::empty(),
                attributes: Seq::<AttrModel>::empty(),
                text: None,
                children: Seq::<ElemModel>::empty(),
                multiplier: None,
            }));
        }
        e
    }
}

impl Clone for EmmetElement {
    /// A deep copy whose model equals the original's.
    fn clone(&self) -> (r: Self)
        ensures
            r.model() == self.model(),
        decreases self,
    {
        let tag = self.tag.clone();
        let id = match &self.id {
            Some(x) => Some(x.clone()),
            None => None,
        };
        let mut classes: Vec<String> = Vec::new();
        let mut i: usize = 0;
        while i < self.classes.len()
            invariant
                i <= self.classes.len(),
                classes@.len() == i,
                forall|j: int| 0 <= j < i ==> classes@[j]@ == self.classes@[j]@,
            decreases self.classes.len() - i,
        {
            classes.push(self.classes[i].clone());
            i = i + 1;
        }
        let mut attributes: Vec<Attribute> = Vec::new();
        let mut k: usize = 0;
        while k < self.attributes.len()
            invariant
                k <= self.attributes.len(),
                attributes@.len() == k,
                forall|j: int| 0 <= j < k ==> attributes@[j].model() == self.attributes@[j].model(),
            decreases self.attributes.len() - k,
        {
            let a = &self.attributes[k];
            let value = match &a.value {
                Some(x) => Some(x.clone()),
                None => None,
            };
            attributes.push(Attribute { name: a.name.clone(), value });
            k = k + 1;
        }
        let text = match &self.text {
            Some(x) => Some(x.clone()),
            None => None,
        };
        let mut children: Vec<EmmetElement> = Vec::new();
        let mut c: usize = 0;
        while c < self.children.len()
            invariant
                c <= self.children.len(),
                children@.len() == c,
                forall|j: int| 0 <= j < c ==> children@[j].model() == self.children@[j].model(),
            decreases self.children.len() - c,
        {
            children.push(self.children[c].clone());
            c = c + 1;
        }
        let r = EmmetElement {
            tag,
            id,
            classes,
            attributes,
            text,
            children,
            multiplier: self.multiplier,
        };
        proof {
            assert(string_views(r.classes@) =~= string_views(self.classes@));
            assert(attr_models(r.attributes@) =~= attr_models(self.attributes@));
            lemma_elem_models_index(r.children@);
            lemma_elem_models_index(self.children@);
            assert(elem_models(r.children@) =~= elem_models(self.children@));
            assert(r.model() =~= self.model());
        }
        r
    }
}

/// The models of a sequence of elements, in order.
pub open spec fn elem_models(s: Seq<EmmetElement>) -> Seq<ElemModel>
    decreases s,
{
    if s.len() == 0 {
        Seq::empty()
    } else {
        elem_models(s.subrange(0, s.len() - 1)).push(s[s.len() - 1].model())
    }
}

/// `elem_models` maps each element to its model, position by position.
pub proof fn lemma_elem_models_index(s: Seq<EmmetElement>)
    ensures
        elem_models(s).len() == s.len(),
        forall|i: int| 0 <= i < s.len() ==> elem_models(s)[i] == s[i].model(),
    decreases s.len(),
{
    if s.len() > 0 {
        lemma_elem_models_index(s.subrange(0, s.len() - 1));
        assert forall|i: int| 0 <= i < s.len() implies elem_models(s)[i] == s[i].model() by {
            if i < s.len() - 1 {
                assert(s.subrange(0, s.len() - 1)[i] == s[i]);
            }
        }
    }
}

/// Appending an element appends its model.
pub proof fn lemma_elem_models_push(s: Seq<EmmetElement>, e: EmmetElement)
    ensures
        elem_models(s.push(e)) == elem_models(s).push(e.model()),
{
    assert(s.push(e).subrange(0, s.push(e).len() - 1) =~= s);
    assert(elem_models(s.push(e)) =~= elem_models(s).push(e.model()));
}

} // verus!
