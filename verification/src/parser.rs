//! The executable parser: a forward-only cursor over the input, proved to
//! return exactly what the grammar's spec functions describe.

use vstd::prelude::*;

use crate::chars::check_digit_char;
use crate::chars::check_ident_char;
use crate::chars::check_space_char;
use crate::chars::check_tag_char;
use crate::chars::check_value_char;
use crate::chars::digit_count;
use crate::chars::digit_val;
use crate::chars::ident_count;
use crate::chars::last_space;
use crate::chars::space_run_start;
use crate::chars::rem;
use crate::chars::tag_count;
use crate::chars::until_count;
use crate::chars::value_count;
use crate::chars::ws_count;
use crate::grammar::digits_value;
use crate::grammar::div_tag;
use crate::grammar::spec_parse_attr_groups;
use crate::grammar::spec_parse_attr_items;
use crate::grammar::spec_parse_attr_value;
use crate::grammar::spec_parse_attrs;
use crate::grammar::spec_parse_classes;
use crate::grammar::spec_parse_element;
use crate::grammar::spec_parse_elements;
use crate::grammar::spec_parse_id_part;
use crate::grammar::spec_parse_identifier;
use crate::grammar::spec_parse_number;
use crate::grammar::spec_parse_tag;
use crate::grammar::spec_parse_text;
use crate::grammar::spec_parse_text_part;
use crate::grammar::spec_parse_mult_part;
use crate::model::AttrModel;
use crate::model::Attribute;
use crate::model::ElemModel;
use crate::model::EmmetElement;
use crate::model::EmmetError;
use crate::model::ErrModel;
use crate::model::attr_models;
use crate::model::elem_models;
use crate::model::lemma_elem_models_push;
use crate::model::str_opt_model;
use crate::model::string_views;

verus! {

/// The character under a cursor, if the cursor is inside the input.
pub open spec fn spec_peek(s: Seq<char>, pos: int) -> Option<char> {
    if 0 <= pos && pos < s.len() {
        Some(s[pos])
    } else {
        None
    }
}

/// While a class list is being read, the classes still ahead of the cursor
/// complete the ones already read.
spec fn classes_cont(s: Seq<char>, start: int, cur: int, done: Seq<Seq<char>>) -> bool {
    match spec_parse_classes(s, cur) {
        Ok(pr) => spec_parse_classes(s, start) == Ok::<(Seq<Seq<char>>, nat), ErrModel>(
            (done + pr.0, ((cur - start) + pr.1) as nat),
        ),
        Err(e) => spec_parse_classes(s, start) == Err::<(Seq<Seq<char>>, nat), ErrModel>(e),
    }
}

/// The same, for the attributes inside one bracket pair.
spec fn attr_items_cont(s: Seq<char>, start: int, cur: int, done: Seq<AttrModel>) -> bool {
    match spec_parse_attr_items(s, cur) {
        Ok(pr) => spec_parse_attr_items(s, start) == Ok::<(Seq<AttrModel>, nat), ErrModel>(
            (done + pr.0, ((cur - start) + pr.1) as nat),
        ),
        Err(e) => spec_parse_attr_items(s, start) == Err::<(Seq<AttrModel>, nat), ErrModel>(e),
    }
}

/// The same, for consecutive bracketed attribute lists.
spec fn attr_groups_cont(s: Seq<char>, start: int, cur: int, done: Seq<AttrModel>) -> bool {
    match spec_parse_attr_groups(s, cur) {
        Ok(pr) => spec_parse_attr_groups(s, start) == Ok::<(Seq<AttrModel>, nat), ErrModel>(
            (done + pr.0, ((cur - start) + pr.1) as nat),
        ),
        Err(e) => spec_parse_attr_groups(s, start) == Err::<(Seq<AttrModel>, nat), ErrModel>(e),
    }
}

/// The same, for a sibling list.
spec fn elements_cont(s: Seq<char>, start: int, cur: int, done: Seq<ElemModel>) -> bool {
    match spec_parse_elements(s, cur) {
        Ok(pr) => spec_parse_elements(s, start) == Ok::<(Seq<ElemModel>, nat), ErrModel>(
            (done + pr.0, ((cur - start) + pr.1) as nat),
        ),
        Err(e) => spec_parse_elements(s, start) == Err::<(Seq<ElemModel>, nat), ErrModel>(e),
    }
}

/// A single-pass parser over one abbreviation.
pub struct EmmetParser {
    input: String,
    length: usize,
    position: usize,
}

impl EmmetParser {
    /// The input being parsed, as a character sequence.
    pub closed spec fn text(&self) -> Seq<char> {
        self.input@
    }

    /// The cursor, counted in characters.
    pub closed spec fn cursor(&self) -> int {
        self.position as int
    }

    spec fn wf(&self) -> bool {
        self.length == self.input@.len()
    }

    /// A parser at the start of the given input.
    pub fn new(input: &str) -> (p: EmmetParser)
        ensures
            p.text() == input@,
            p.cursor() == 0,
    {
        let length = input.unicode_len();
        EmmetParser { input: input.to_owned(), length, position: 0 }
    }

    fn peek(&self) -> (r: Option<char>)
        requires
            self.wf(),
        ensures
            r == spec_peek(self.input@, self.position as int),
    {
        if self.position < self.length {
            Some(self.input.as_str().get_char(self.position))
        } else {
            None
        }
    }

    /// Whether the character under the cursor is exactly `c`.
    fn peek_is(&self, c: char) -> (r: bool)
        requires
            self.wf(),
        ensures
            r == (spec_peek(self.input@, self.position as int) == Some(c)),
    {
        let p = self.peek();
        match p {
            Some(d) => d == c,
            None => false,
        }
    }

    fn consume_char(&mut self) -> (r: Option<char>)
        requires
            old(self).wf(),
        ensures
            final(self).wf(),
            final(self).input@ == old(self).input@,
            final(self).length == old(self).length,
            old(self).position < old(self).length ==> r == Some(
                old(self).input@[old(self).position as int],
            ) && final(self).position == old(self).position + 1,
            old(self).position >= old(self).length ==> r == None::<char> && final(self).position
                == old(self).position,
    {
        if self.position < self.length {
            let c = self.input.as_str().get_char(self.position);
            self.position = self.position + 1;
            Some(c)
        } else {
            None
        }
    }

    fn skip_whitespace(&mut self)
        requires
            old(self).wf(),
        ensures
            final(self).wf(),
            final(self).input@ == old(self).input@,
            final(self).length == old(self).length,
            final(self).position == old(self).position + ws_count(
                old(self).input@,
                old(self).position as int,
            ),
    {
        let ghost s = self.input@;
        let ghost start = self.position as int;
        while self.position < self.length && check_space_char(
            self.input.as_str().get_char(self.position),
        )
            invariant
                self.wf(),
                self.input@ == s,
                start <= self.position as int,
                ws_count(s, start) == (self.position as int - start) + ws_count(
                    s,
                    self.position as int,
                ),
            decreases s.len() - self.position as int,
        {
            self.position = self.position + 1;
        }
    }

    fn parse_tag_name(&mut self) -> (r: Option<String>)
        requires
            old(self).wf(),
        ensures
            final(self).wf(),
            final(self).input@ == old(self).input@,
            final(self).length == old(self).length,
            final(self).position == old(self).position + tag_count(
                old(self).input@,
                old(self).position as int,
            ),
            match r {
                Some(t) => spec_parse_tag(old(self).input@, old(self).position as int).0 == Some(
                    t@,
                ),
                None => spec_parse_tag(old(self).input@, old(self).position as int).0 == None::<
                    Seq<char>,
                >,
            },
    {
        let ghost s = self.input@;
        let ghost start = self.position as int;
        let start_pos = self.position;
        while self.position < self.length && check_tag_char(
            self.input.as_str().get_char(self.position),
        )
            invariant
                self.wf(),
                self.input@ == s,
                start_pos as int == start,
                start <= self.position as int,
                self.position as int <= s.len() || self.position as int == start,
                tag_count(s, start) == (self.position as int - start) + tag_count(
                    s,
                    self.position as int,
                ),
            decreases s.len() - self.position as int,
        {
            self.position = self.position + 1;
        }
        if self.position > start_pos {
            let t = self.input.as_str().substring_char(start_pos, self.position).to_owned();
            proof {
                assert(t@ =~= s.subrange(start, start + tag_count(s, start)));
            }
            Some(t)
        } else {
            None
        }
    }

    fn parse_identifier(&mut self) -> (r: Result<String, EmmetError>)
        requires
            old(self).wf(),
        ensures
            final(self).wf(),
            final(self).input@ == old(self).input@,
            final(self).length == old(self).length,
            final(self).position >= old(self).position,
            match r {
                Ok(t) => spec_parse_identifier(old(self).input@, old(self).position as int)
                    == Ok::<(Seq<char>, nat), ErrModel>(
                    (t@, (final(self).position - old(self).position) as nat),
                ),
                Err(e) => spec_parse_identifier(old(self).input@, old(self).position as int)
                    == Err::<(Seq<char>, nat), ErrModel>(e.model()) && final(self).position == old(
                    self,
                ).position,
            },
    {
        let ghost s = self.input@;
        let ghost start = self.position as int;
        let start_pos = self.position;
        while self.position < self.length && check_ident_char(
            self.input.as_str().get_char(self.position),
        )
            invariant
                self.wf(),
                self.input@ == s,
                start_pos as int == start,
                start <= self.position as int,
                self.position as int <= s.len() || self.position as int == start,
                ident_count(s, start) == (self.position as int - start) + ident_count(
                    s,
                    self.position as int,
                ),
            decreases s.len() - self.position as int,
        {
            self.position = self.position + 1;
        }
        if self.position > start_pos {
            let t = self.input.as_str().substring_char(start_pos, self.position).to_owned();
            proof {
                assert(t@ =~= s.subrange(start, start + ident_count(s, start)));
            }
            Ok(t)
        } else {
            Err(EmmetError::InvalidSyntax(String::from_str("Expected identifier")))
        }
    }

    fn parse_attribute_value(&mut self) -> (r: Result<String, EmmetError>)
        requires
            old(self).wf(),
        ensures
            final(self).wf(),
            final(self).input@ == old(self).input@,
            final(self).length == old(self).length,
            final(self).position >= old(self).position,
            match r {
                Ok(t) => spec_parse_attr_value(old(self).input@, old(self).position as int)
                    == Ok::<(Seq<char>, nat), ErrModel>(
                    (t@, (final(self).position - old(self).position) as nat),
                ),
                Err(e) => spec_parse_attr_value(old(self).input@, old(self).position as int)
                    == Err::<(Seq<char>, nat), ErrModel>(e.model()),
            },
    {
        let ghost s = self.input@;
        let ghost p0 = self.position as int;
        if self.peek_is('"') {
            let _ = self.consume_char();
            let ghost start = self.position as int;
            let content_start = self.position;
            while self.position < self.length && self.input.as_str().get_char(self.position) != '"'
                invariant
                    self.wf(),
                    self.input@ == s,
                    content_start as int == start,
                    start <= self.position as int,
                    self.position as int <= s.len() || self.position as int == start,
                    until_count(s, start, '"') == (self.position as int - start) + until_count(
                        s,
                        self.position as int,
                        '"',
                    ),
                decreases s.len() - self.position as int,
            {
                self.position = self.position + 1;
            }
            if self.position < self.length {
                let t = self.input.as_str().substring_char(content_start, self.position).to_owned();
                let _ = self.consume_char();
                proof {
                    assert(t@ =~= s.subrange(start, start + until_count(s, start, '"')));
                }
                Ok(t)
            } else {
                Err(EmmetError::UnclosedBracket)
            }
        } else {
            let ghost start = self.position as int;
            let start_pos = self.position;
            while self.position < self.length && check_value_char(
                self.input.as_str().get_char(self.position),
            )
                invariant
                    self.wf(),
                    self.input@ == s,
                    start_pos as int == start,
                    start <= self.position as int,
                    self.position as int <= s.len() || self.position as int == start,
                    value_count(s, start) == (self.position as int - start) + value_count(
                        s,
                        self.position as int,
                    ),
                decreases s.len() - self.position as int,
            {
                self.position = self.position + 1;
            }
            if self.position == start_pos {
                return Err(EmmetError::InvalidAttribute);
            }
            let ghost end = self.position as int;
            let end_pos = self.position;
            let mut stopped_eq = false;
            if self.position < self.length {
                let c2 = self.input.as_str().get_char(self.position);
                stopped_eq = c2 == '=';
            }
            if stopped_eq {
                let mut j = end_pos;
                while j > start_pos && self.input.as_str().get_char(j - 1) != ' '
                    invariant
                        self.wf(),
                        self.input@ == s,
                        start_pos as int == start,
                        start <= j as int <= end <= s.len(),
                        end_pos as int == end,
                        self.position == end_pos,
                        last_space(s, start, end) == last_space(s, start, j as int),
                    decreases j,
                {
                    j = j - 1;
                }
                if j > start_pos {
                    // the last space sits at j - 1; cut before the whole space run
                    let mut i = j - 1;
                    while i > start_pos && self.input.as_str().get_char(i - 1) == ' '
                        invariant
                            self.wf(),
                            self.input@ == s,
                            start_pos as int == start,
                            start <= i as int <= end <= s.len(),
                            space_run_start(s, start, last_space(s, start, end))
                                == space_run_start(s, start, i as int),
                        decreases i,
                    {
                        i = i - 1;
                    }
                    if i > start_pos {
                        let t = self.input.as_str().substring_char(start_pos, i).to_owned();
                        self.position = i;
                        proof {
                            assert(t@ =~= s.subrange(
                                start,
                                space_run_start(s, start, last_space(s, start, end)),
                            ));
                        }
                        Ok(t)
                    } else {
                        Err(EmmetError::InvalidAttribute)
                    }
                } else {
                    let t = self.input.as_str().substring_char(start_pos, end_pos).to_owned();
                    proof {
                        assert(t@ =~= s.subrange(start, start + value_count(s, start)));
                    }
                    Ok(t)
                }
            } else {
                let t = self.input.as_str().substring_char(start_pos, end_pos).to_owned();
                proof {
                    assert(t@ =~= s.subrange(start, start + value_count(s, start)));
                }
                Ok(t)
            }
        }
    }

    fn parse_text_content(&mut self) -> (r: Result<String, EmmetError>)
        requires
            old(self).wf(),
        ensures
            final(self).wf(),
            final(self).input@ == old(self).input@,
            final(self).length == old(self).length,
            final(self).position >= old(self).position,
            match r {
                Ok(t) => spec_parse_text(old(self).input@, old(self).position as int) == Ok::<
                    (Seq<char>, nat),
                    ErrModel,
                >((t@, (final(self).position - old(self).position) as nat)),
                Err(e) => spec_parse_text(old(self).input@, old(self).position as int) == Err::<
                    (Seq<char>, nat),
                    ErrModel,
                >(e.model()),
            },
    {
        let ghost s = self.input@;
        let ghost p0 = self.position as int;
        let c = self.consume_char();
        let is_brace = match c {
            Some(ch) => ch == '{',
            None => false,
        };
        if !is_brace {
            return Err(EmmetError::InvalidSyntax(String::from_str("Expected '{'")));
        }
        let ghost start = self.position as int;
        let content_start = self.position;
        while self.position < self.length && self.input.as_str().get_char(self.position) != '}'
            invariant
                self.wf(),
                self.input@ == s,
                content_start as int == start,
                start <= self.position as int,
                self.position as int <= s.len() || self.position as int == start,
                until_count(s, start, '}') == (self.position as int - start) + until_count(
                    s,
                    self.position as int,
                    '}',
                ),
            decreases s.len() - self.position as int,
        {
            self.position = self.position + 1;
        }
        if self.position < self.length {
            let t = self.input.as_str().substring_char(content_start, self.position).to_owned();
            let _ = self.consume_char();
            proof {
                assert(t@ =~= s.subrange(start, start + until_count(s, start, '}')));
            }
            Ok(t)
        } else {
            Err(EmmetError::UnclosedBracket)
        }
    }

    fn parse_number(&mut self) -> (r: Result<u32, EmmetError>)
        requires
            old(self).wf(),
        ensures
            final(self).wf(),
            final(self).input@ == old(self).input@,
            final(self).length == old(self).length,
            final(self).position >= old(self).position,
            match r {
                Ok(v) => spec_parse_number(old(self).input@, old(self).position as int) == Ok::<
                    (u32, nat),
                    ErrModel,
                >((v, (final(self).position - old(self).position) as nat)),
                Err(e) => spec_parse_number(old(self).input@, old(self).position as int) == Err::<
                    (u32, nat),
                    ErrModel,
                >(e.model()),
            },
    {
        let ghost s = self.input@;
        let ghost start = self.position as int;
        let start_pos = self.position;
        let mut acc: u64 = 0;
        let mut fits: bool = true;
        while self.position < self.length && check_digit_char(
            self.input.as_str().get_char(self.position),
        )
            invariant
                self.wf(),
                self.input@ == s,
                start_pos as int == start,
                start <= self.position as int,
                self.position as int <= s.len() || self.position as int == start,
                digit_count(s, start) == (self.position as int - start) + digit_count(
                    s,
                    self.position as int,
                ),
                fits ==> acc as nat == digits_value(s, start, self.position as int) && acc
                    <= u32::MAX as u64,
                !fits ==> digits_value(s, start, self.position as int) > u32::MAX,
            decreases s.len() - self.position as int,
        {
            let c = self.input.as_str().get_char(self.position);
            let d: u64 = (c as u32 - 48) as u64;
            let ghost before = self.position as int;
            let ghost acc_before = acc as nat;
            if fits {
                let next: u64 = acc * 10 + d;
                if next > u32::MAX as u64 {
                    fits = false;
                } else {
                    acc = next;
                }
            }
            self.position = self.position + 1;
            proof {
                assert(digits_value(s, start, before + 1) == digits_value(s, start, before) * 10
                    + digit_val(s[before]));
                assert(digits_value(s, start, before) * 10 >= digits_value(s, start, before));
            }
        }
        if self.position > start_pos {
            if fits {
                Ok(acc as u32)
            } else {
                Err(EmmetError::InvalidSyntax(String::from_str("Invalid number")))
            }
        } else {
            Err(EmmetError::InvalidSyntax(String::from_str("Expected number")))
        }
    }

    /// One bracketed attribute list: `[`, names with optional values,
    /// separated by commas or whitespace, `]`.
    #[verifier::loop_isolation(false)]
    fn parse_attributes(&mut self) -> (r: Result<Vec<Attribute>, EmmetError>)
        requires
            old(self).wf(),
        ensures
            final(self).wf(),
            final(self).input@ == old(self).input@,
            final(self).length == old(self).length,
            final(self).position >= old(self).position,
            match r {
                Ok(v) => spec_parse_attrs(old(self).input@, old(self).position as int) == Ok::<
                    (Seq<AttrModel>, nat),
                    ErrModel,
                >((attr_models(v@), (final(self).position - old(self).position) as nat)),
                Err(e) => spec_parse_attrs(old(self).input@, old(self).position as int) == Err::<
                    (Seq<AttrModel>, nat),
                    ErrModel,
                >(e.model()),
            },
    {
        let ghost s = self.input@;
        let ghost p0 = self.position as int;
        let c = self.consume_char();
        let is_open = match c {
            Some(ch) => ch == '[',
            None => false,
        };
        if !is_open {
            return Err(EmmetError::InvalidAttribute);
        }
        let ghost items_start = self.position as int;
        let mut attributes: Vec<Attribute> = Vec::new();
        proof {
            match spec_parse_attr_items(s, items_start) {
                Ok(pr) => {
                    assert(attr_models(attributes@) + pr.0 =~= pr.0);
                },
                Err(e) => {},
            }
            assert(attr_items_cont(s, items_start, items_start, attr_models(attributes@)));
        }
        loop
            invariant
                self.wf(),
                self.input@ == s,
                self.length == s.len(),
                items_start <= self.position as int,
                0 <= items_start,
                attr_items_cont(s, items_start, self.position as int, attr_models(attributes@)),
                spec_parse_attrs(s, p0) == (match spec_parse_attr_items(s, items_start) {
                    Ok(pr) => Ok::<(Seq<AttrModel>, nat), ErrModel>((pr.0, (1 + pr.1) as nat)),
                    Err(e) => Err::<(Seq<AttrModel>, nat), ErrModel>(e),
                }),
                items_start == p0 + 1,
            decreases rem(s, self.position as int),
        {
            let ghost cur0 = self.position as int;
            self.skip_whitespace();
            let ghost q = self.position as int;
            if self.position >= self.length {
                proof {
                    assert(spec_parse_attr_items(s, cur0) == Err::<(Seq<AttrModel>, nat), ErrModel>(
                        ErrModel::UnclosedBracket,
                    ));
                }
                return Err(EmmetError::UnclosedBracket);
            }
            if self.peek_is(']') {
                let _ = self.consume_char();
                proof {
                    assert(spec_parse_attr_items(s, cur0) == Ok::<(Seq<AttrModel>, nat), ErrModel>(
                        (Seq::empty(), ((q - cur0) + 1) as nat),
                    ));
                    assert(attr_models(attributes@) + Seq::<AttrModel>::empty() =~= attr_models(
                        attributes@,
                    ));
                }
                return Ok(attributes);
            }
            if self.peek_is('=') {
                proof {
                    assert(spec_parse_attr_items(s, cur0) == Err::<(Seq<AttrModel>, nat), ErrModel>(
                        ErrModel::InvalidAttribute,
                    ));
                }
                return Err(EmmetError::InvalidAttribute);
            }
            let name = match self.parse_identifier() {
                Ok(n) => n,
                Err(e) => {
                    proof {
                        assert(spec_parse_attr_items(s, cur0) == Err::<
                            (Seq<AttrModel>, nat),
                            ErrModel,
                        >(e.model()));
                    }
                    return Err(e);
                },
            };
            let ghost after_name = self.position as int;
            let value: Option<String>;
            if self.peek_is('=') {
                let _ = self.consume_char();
                match self.parse_attribute_value() {
                    Ok(v) => {
                        value = Some(v);
                    },
                    Err(e) => {
                        proof {
                            assert(spec_parse_attr_items(s, cur0) == Err::<
                                (Seq<AttrModel>, nat),
                                ErrModel,
                            >(e.model()));
                        }
                        return Err(e);
                    },
                }
            } else {
                value = None;
            }
            let ghost after_value = self.position as int;
            let ghost am = AttrModel { name: name@, value: str_opt_model(value) };
            let ghost done0 = attr_models(attributes@);
            attributes.push(Attribute { name, value });
            proof {
                assert(attr_models(attributes@) =~= done0.push(am));
            }
            self.skip_whitespace();
            if self.peek_is(',') {
                let _ = self.consume_char();
            }
            proof {
                match spec_parse_attr_items(s, self.position as int) {
                    Ok(pr) => {
                        assert(spec_parse_attr_items(s, cur0) == Ok::<
                            (Seq<AttrModel>, nat),
                            ErrModel,
                        >((seq![am] + pr.0, ((self.position as int - cur0) + pr.1) as nat)));
                        assert(done0 + (seq![am] + pr.0) =~= done0.push(am) + pr.0);
                    },
                    Err(e) => {
                        assert(spec_parse_attr_items(s, cur0) == Err::<
                            (Seq<AttrModel>, nat),
                            ErrModel,
                        >(e));
                    },
                }
                assert(attr_items_cont(s, items_start, self.position as int, attr_models(
                    attributes@,
                )));
            }
        }
    }

    /// The `.class` suffixes at the cursor, in order.
    #[verifier::loop_isolation(false)]
    fn parse_class_list(&mut self) -> (r: Result<Vec<String>, EmmetError>)
        requires
            old(self).wf(),
        ensures
            final(self).wf(),
            final(self).input@ == old(self).input@,
            final(self).length == old(self).length,
            final(self).position >= old(self).position,
            match r {
                Ok(v) => spec_parse_classes(old(self).input@, old(self).position as int) == Ok::<
                    (Seq<Seq<char>>, nat),
                    ErrModel,
                >((string_views(v@), (final(self).position - old(self).position) as nat)),
                Err(e) => spec_parse_classes(old(self).input@, old(self).position as int)
                    == Err::<(Seq<Seq<char>>, nat), ErrModel>(e.model()),
            },
    {
        let ghost s = self.input@;
        let ghost p2 = self.position as int;
        let mut classes: Vec<String> = Vec::new();
        proof {
            match spec_parse_classes(s, p2) {
                Ok(pr) => {
                    assert(string_views(classes@) + pr.0 =~= pr.0);
                },
                Err(e) => {},
            }
            assert(classes_cont(s, p2, p2, string_views(classes@)));
        }
        while self.peek_is('.')
            invariant
                self.wf(),
                self.input@ == s,
                self.length == s.len(),
                p2 <= self.position as int,
                classes_cont(s, p2, self.position as int, string_views(classes@)),
            decreases rem(s, self.position as int),
        {
            let ghost cur0 = self.position as int;
            let _ = self.consume_char();
            match self.parse_identifier() {
                Ok(c) => {
                    let ghost done0 = string_views(classes@);
                    let ghost cm = c@;
                    classes.push(c);
                    proof {
                        assert(string_views(classes@) =~= done0.push(cm));
                        match spec_parse_classes(s, self.position as int) {
                            Ok(pr) => {
                                assert(done0 + (seq![cm] + pr.0) =~= string_views(classes@) + pr.0);
                            },
                            Err(e) => {},
                        }
                        assert(classes_cont(s, p2, self.position as int, string_views(classes@)));
                    }
                },
                Err(e) => {
                    proof {
                        assert(spec_parse_classes(s, cur0) == Err::<
                            (Seq<Seq<char>>, nat),
                            ErrModel,
                        >(e.model()));
                    }
                    return Err(e);
                },
            }
        }
        proof {
            let p3 = self.position as int;
            assert(spec_parse_classes(s, p3) == Ok::<(Seq<Seq<char>>, nat), ErrModel>(
                (Seq::empty(), 0),
            ));
            assert(string_views(classes@) + Seq::<Seq<char>>::empty() =~= string_views(classes@));
        }
        Ok(classes)
    }

    /// All consecutive bracketed attribute lists at the cursor.
    #[verifier::loop_isolation(false)]
    fn parse_attr_group_list(&mut self) -> (r: Result<Vec<Attribute>, EmmetError>)
        requires
            old(self).wf(),
        ensures
            final(self).wf(),
            final(self).input@ == old(self).input@,
            final(self).length == old(self).length,
            final(self).position >= old(self).position,
            match r {
                Ok(v) => spec_parse_attr_groups(old(self).input@, old(self).position as int)
                    == Ok::<(Seq<AttrModel>, nat), ErrModel>(
                    (attr_models(v@), (final(self).position - old(self).position) as nat),
                ),
                Err(e) => spec_parse_attr_groups(old(self).input@, old(self).position as int)
                    == Err::<(Seq<AttrModel>, nat), ErrModel>(e.model()),
            },
    {
        let ghost s = self.input@;
        let ghost p3 = self.position as int;
        let mut attributes: Vec<Attribute> = Vec::new();
        proof {
            match spec_parse_attr_groups(s, p3) {
                Ok(pr) => {
                    assert(attr_models(attributes@) + pr.0 =~= pr.0);
                },
                Err(e) => {},
            }
            assert(attr_groups_cont(s, p3, p3, attr_models(attributes@)));
        }
        while self.peek_is('[')
            invariant
                self.wf(),
                self.input@ == s,
                self.length == s.len(),
                p3 <= self.position as int,
                attr_groups_cont(s, p3, self.position as int, attr_models(attributes@)),
            decreases rem(s, self.position as int),
        {
            let ghost cur0 = self.position as int;
            match self.parse_attributes() {
                Ok(mut group) => {
                    let ghost done0 = attr_models(attributes@);
                    let ghost gm = attr_models(group@);
                    attributes.append(&mut group);
                    proof {
                        assert(attr_models(attributes@) =~= done0 + gm);
                        match spec_parse_attr_groups(s, self.position as int) {
                            Ok(pr) => {
                                assert(done0 + (gm + pr.0) =~= attr_models(attributes@) + pr.0);
                            },
                            Err(e) => {},
                        }
                        assert(attr_groups_cont(s, p3, self.position as int, attr_models(
                            attributes@,
                        )));
                    }
                },
                Err(e) => {
                    proof {
                        assert(spec_parse_attr_groups(s, cur0) == Err::<
                            (Seq<AttrModel>, nat),
                            ErrModel,
                        >(e.model()));
                    }
                    return Err(e);
                },
            }
        }
        proof {
            let p4 = self.position as int;
            assert(spec_parse_attr_groups(s, p4) == Ok::<(Seq<AttrModel>, nat), ErrModel>(
                (Seq::empty(), 0),
            ));
            assert(attr_models(attributes@) + Seq::<AttrModel>::empty() =~= attr_models(
                attributes@,
            ));
        }
        Ok(attributes)
    }

    /// One element and its whole suffix chain, children included.
    #[verifier::spinoff_prover]
    #[verifier::rlimit(100)]
    fn parse_element(&mut self) -> (r: Result<EmmetElement, EmmetError>)
        requires
            old(self).wf(),
        ensures
            final(self).wf(),
            final(self).input@ == old(self).input@,
            final(self).length == old(self).length,
            final(self).position >= old(self).position,
            match r {
                Ok(el) => spec_parse_element(old(self).input@, old(self).position as int) == Ok::<
                    (ElemModel, nat),
                    ErrModel,
                >((el.model(), (final(self).position - old(self).position) as nat)),
                Err(e) => spec_parse_element(old(self).input@, old(self).position as int) == Err::<
                    (ElemModel, nat),
                    ErrModel,
                >(e.model()),
            },
        decreases rem(self.input@, self.position as int), 0int,
    {
        let ghost s = self.input@;
        let ghost p0 = self.position as int;
        // tag
        let tag: String = match self.parse_tag_name() {
            Some(t) => t,
            None => String::from_str("div"),
        };
        let ghost t = tag_count(s, p0);
        let ghost p1 = self.position as int;
        let ghost tag_m: Seq<char> = if t > 0 {
            s.subrange(p0, p0 + t)
        } else {
            div_tag()
        };
        proof {
            reveal_strlit("div");
            assert("div"@ =~= div_tag());
            assert(tag@ == tag_m);
        }
        // id
        let id: Option<String>;
        if self.peek_is('#') {
            let _ = self.consume_char();
            match self.parse_identifier() {
                Ok(i) => {
                    id = Some(i);
                },
                Err(e) => {
                    proof {
                        assert(spec_parse_id_part(s, p1) == Err::<
                            (Option<Seq<char>>, nat),
                            ErrModel,
                        >(e.model()));
                        reveal(spec_parse_element);
                        assert(spec_parse_element(s, p0) == Err::<(ElemModel, nat), ErrModel>(
                            e.model(),
                        ));
                    }
                    return Err(e);
                },
            }
        } else {
            id = None;
        }
        let ghost p2 = self.position as int;
        let ghost id_m = str_opt_model(id);
        proof {
            assert(spec_parse_id_part(s, p1) == Ok::<(Option<Seq<char>>, nat), ErrModel>(
                (id_m, (p2 - p1) as nat),
            ));
        }
        // classes
        let classes: Vec<String> = match self.parse_class_list() {
            Ok(v) => v,
            Err(e) => {
                proof {
                    reveal(spec_parse_element);
                    assert(spec_parse_element(s, p0) == Err::<(ElemModel, nat), ErrModel>(
                        e.model(),
                    ));
                }
                return Err(e);
            },
        };
        let ghost p3 = self.position as int;
        let ghost classes_m = string_views(classes@);
        // attributes
        let attributes: Vec<Attribute> = match self.parse_attr_group_list() {
            Ok(v) => v,
            Err(e) => {
                proof {
                    reveal(spec_parse_element);
                    assert(spec_parse_element(s, p0) == Err::<(ElemModel, nat), ErrModel>(
                        e.model(),
                    ));
                }
                return Err(e);
            },
        };
        let ghost p4 = self.position as int;
        let ghost attrs_m = attr_models(attributes@);
        // text
        let text: Option<String>;
        if self.peek_is('{') {
            match self.parse_text_content() {
                Ok(x) => {
                    text = Some(x);
                },
                Err(e) => {
                    proof {
                        assert(spec_parse_text_part(s, p4) == Err::<
                            (Option<Seq<char>>, nat),
                            ErrModel,
                        >(e.model()));
                        reveal(spec_parse_element);
                        assert(spec_parse_element(s, p0) == Err::<(ElemModel, nat), ErrModel>(
                            e.model(),
                        ));
                    }
                    return Err(e);
                },
            }
        } else {
            text = None;
        }
        let ghost p5 = self.position as int;
        let ghost text_m = str_opt_model(text);
        proof {
            assert(spec_parse_text_part(s, p4) == Ok::<(Option<Seq<char>>, nat), ErrModel>(
                (text_m, (p5 - p4) as nat),
            ));
        }
        // multiplier
        let multiplier: Option<u32>;
        if self.peek_is('*') {
            let _ = self.consume_char();
            match self.parse_number() {
                Ok(v) => {
                    multiplier = Some(v);
                },
                Err(e) => {
                    proof {
                        assert(spec_parse_mult_part(s, p5) == Err::<
                            (Option<u32>, nat),
                            ErrModel,
                        >(e.model()));
                        reveal(spec_parse_element);
                        assert(spec_parse_element(s, p0) == Err::<(ElemModel, nat), ErrModel>(
                            e.model(),
                        ));
                    }
                    return Err(e);
                },
            }
        } else {
            multiplier = None;
        }
        let ghost p6 = self.position as int;
        proof {
            assert(spec_parse_mult_part(s, p5) == Ok::<(Option<u32>, nat), ErrModel>(
                (multiplier, (p6 - p5) as nat),
            ));
        }
        // children
        let children: Vec<EmmetElement>;
        if self.peek_is('>') {
            let _ = self.consume_char();
            match self.parse_children() {
                Ok(v) => {
                    children = v;
                },
                Err(e) => {
                    proof {
                        reveal(spec_parse_element);
                        assert(spec_parse_element(s, p0) == Err::<(ElemModel, nat), ErrModel>(
                            e.model(),
                        ));
                    }
                    return Err(e);
                },
            }
        } else {
            children = Vec::new();
            proof {
                assert(elem_models(children@) =~= Seq::<ElemModel>::empty());
            }
        }
        let element = EmmetElement { tag, id, classes, attributes, text, children, multiplier };
        proof {
            assert(element.model() =~= ElemModel {
                tag: tag_m,
                id: id_m,
                classes: classes_m,
                attributes: attrs_m,
                text: text_m,
                children: elem_models(element.children@),
                multiplier: element.multiplier,
            });
            reveal(spec_parse_element);
            assert(spec_parse_element(s, p0) == Ok::<(ElemModel, nat), ErrModel>(
                (element.model(), (self.position as int - p0) as nat),
            ));
        }
        Ok(element)
    }

    /// A sibling list: elements separated by `+` or whitespace, ending at
    /// the end of the input or at the first character no element consumes.
    #[verifier::loop_isolation(false)]
    fn parse_children(&mut self) -> (r: Result<Vec<EmmetElement>, EmmetError>)
        requires
            old(self).wf(),
        ensures
            final(self).wf(),
            final(self).input@ == old(self).input@,
            final(self).length == old(self).length,
            final(self).position >= old(self).position,
            match r {
                Ok(v) => spec_parse_elements(old(self).input@, old(self).position as int) == Ok::<
                    (Seq<ElemModel>, nat),
                    ErrModel,
                >((elem_models(v@), (final(self).position - old(self).position) as nat)),
                Err(e) => spec_parse_elements(old(self).input@, old(self).position as int)
                    == Err::<(Seq<ElemModel>, nat), ErrModel>(e.model()),
            },
        decreases rem(self.input@, self.position as int), 1int,
    {
        let ghost s = self.input@;
        let ghost p0 = self.position as int;
        let mut elements: Vec<EmmetElement> = Vec::new();
        proof {
            match spec_parse_elements(s, p0) {
                Ok(pr) => {
                    assert(elem_models(elements@) + pr.0 =~= pr.0);
                },
                Err(e) => {},
            }
            assert(elements_cont(s, p0, p0, elem_models(elements@)));
        }
        loop
            invariant
                self.wf(),
                self.input@ == s,
                self.length == s.len(),
                p0 <= self.position as int,
                elements_cont(s, p0, self.position as int, elem_models(elements@)),
            decreases rem(s, self.position as int),
        {
            let ghost cur0 = self.position as int;
            self.skip_whitespace();
            let ghost q = self.position as int;
            if self.position >= self.length {
                proof {
                    reveal(spec_parse_element);
                    assert(spec_parse_elements(s, cur0) == Ok::<(Seq<ElemModel>, nat), ErrModel>(
                        (Seq::empty(), (q - cur0) as nat),
                    ));
                    assert(elem_models(elements@) + Seq::<ElemModel>::empty() =~= elem_models(
                        elements@,
                    ));
                }
                return Ok(elements);
            }
            let before = self.position;
            let el = match self.parse_element() {
                Ok(el) => el,
                Err(e) => {
                    proof {
                        reveal(spec_parse_element);
                        assert(spec_parse_elements(s, cur0) == Err::<
                            (Seq<ElemModel>, nat),
                            ErrModel,
                        >(e.model()));
                    }
                    return Err(e);
                },
            };
            let plus = self.peek_is('+');
            if plus {
                let ghost done0 = elem_models(elements@);
                let ghost em = el.model();
                let ghost before_seq = elements@;
                elements.push(el);
                let _ = self.consume_char();
                proof {
                    reveal(spec_parse_element);
                    let e_last = elements@[elements@.len() - 1];
                    assert(elements@ =~= before_seq.push(e_last));
                    lemma_elem_models_push(before_seq, e_last);
                    assert(e_last.model() == em);
                    assert(elem_models(elements@) =~= done0.push(em));
                    match spec_parse_elements(s, self.position as int) {
                        Ok(pr) => {
                            assert(done0 + (seq![em] + pr.0) =~= elem_models(elements@) + pr.0);
                        },
                        Err(e) => {},
                    }
                    assert(elements_cont(s, p0, self.position as int, elem_models(elements@)));
                }
            } else if self.position == before {
                proof {
                    reveal(spec_parse_element);
                    assert(spec_parse_elements(s, cur0) == Ok::<(Seq<ElemModel>, nat), ErrModel>(
                        (Seq::empty(), (q - cur0) as nat),
                    ));
                    assert(elem_models(elements@) + Seq::<ElemModel>::empty() =~= elem_models(
                        elements@,
                    ));
                }
                return Ok(elements);
            } else {
                let ghost done0 = elem_models(elements@);
                let ghost em = el.model();
                let ghost before_seq = elements@;
                elements.push(el);
                proof {
                    reveal(spec_parse_element);
                    let e_last = elements@[elements@.len() - 1];
                    assert(elements@ =~= before_seq.push(e_last));
                    lemma_elem_models_push(before_seq, e_last);
                    assert(e_last.model() == em);
                    assert(elem_models(elements@) =~= done0.push(em));
                    match spec_parse_elements(s, self.position as int) {
                        Ok(pr) => {
                            assert(done0 + (seq![em] + pr.0) =~= elem_models(elements@) + pr.0);
                        },
                        Err(e) => {},
                    }
                    assert(elements_cont(s, p0, self.position as int, elem_models(elements@)));
                }
            }
        }
    }

    /// Parses the whole remaining input into a sibling list of trees.
    pub fn parse(&mut self) -> (r: Result<Vec<EmmetElement>, EmmetError>)
        ensures
            final(self).text() == old(self).text(),
            match r {
                Ok(v) => spec_parse_elements(old(self).text(), old(self).cursor()) == Ok::<
                    (Seq<ElemModel>, nat),
                    ErrModel,
                >((elem_models(v@), (final(self).cursor() - old(self).cursor()) as nat)),
                Err(e) => spec_parse_elements(old(self).text(), old(self).cursor()) == Err::<
                    (Seq<ElemModel>, nat),
                    ErrModel,
                >(e.model()),
            },
    {
        self.length = self.input.as_str().unicode_len();
        self.parse_children()
    }
}

} // verus!
