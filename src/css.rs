use vstd::prelude::*;

verus! {

pub enum Unit {
    Px,
}

#[derive(Clone, Copy, PartialEq, Eq, Structural, Debug)]
pub struct Color {
    pub r: u8,
    pub g: u8,
    pub b: u8,
    pub a: u8,
}

/// A declared value.
pub enum Value {
    Keyword(String),
    Length(i64, Unit),
    ColorValue(Color),
}

impl Value {
    /// The value in pixels; keywords and colours count as zero.
    pub open spec fn px(&self) -> int {
        match self {
            Value::Length(v, _) => *v as int,
            _ => 0,
        }
    }

    pub open spec fn is_keyword(&self, k: Seq<char>) -> bool {
        match self {
            Value::Keyword(s) => s@ == k,
            _ => false,
        }
    }

    pub open spec fn is_auto(&self) -> bool {
        self.is_keyword("auto"@)
    }

    pub fn to_px(&self) -> (r: i64)
        ensures
            r as int == self.px(),
    {
        match self {
            Value::Length(v, _) => *v,
            _ => 0,
        }
    }

    pub fn keyword_is(&self, k: &str) -> (r: bool)
        ensures
            r == self.is_keyword(k@),
    {
        match self {
            Value::Keyword(s) => crate::text::str_eq(s.as_str(), k),
            _ => false,
        }
    }

    pub fn auto(&self) -> (r: bool)
        ensures
            r == self.is_auto(),
    {
        proof { reveal_strlit("auto"); }
        self.keyword_is("auto")
    }

    /// A copy of the value.
    pub fn duplicate(&self) -> (r: Value)
        ensures
            r == *self,
    {
        match self {
            Value::Keyword(s) => Value::Keyword(s.clone()),
            Value::Length(v, Unit::Px) => Value::Length(*v, Unit::Px),
            Value::ColorValue(c) => Value::ColorValue(*c),
        }
    }
}

/// A simple selector: optional tag, optional id, required classes.
pub struct SimpleSelector {
    pub tag_name: Option<String>,
    pub id: Option<String>,
    pub class: Vec<String>,
}

pub enum Selector {
    Simple(SimpleSelector),
}

/// (id count, class count, tag count), compared lexicographically.
#[derive(Clone, Copy, PartialEq, Eq, Structural, Debug)]
pub struct Specificity {
    pub ids: usize,
    pub classes: usize,
    pub tags: usize,
}

impl Specificity {
    pub open spec fn le(self, o: Specificity) -> bool {
        ||| self.ids < o.ids
        ||| (self.ids == o.ids && self.classes < o.classes)
        ||| (self.ids == o.ids && self.classes == o.classes && self.tags <= o.tags)
    }

    pub fn le_exec(&self, o: &Specificity) -> (r: bool)
        ensures
            r == self.le(*o),
    {
        self.ids < o.ids || (self.ids == o.ids && self.classes < o.classes) || (self.ids
            == o.ids && self.classes == o.classes && self.tags <= o.tags)
    }
}

impl Selector {
    pub open spec fn spec_specificity(&self) -> Specificity {
        match self {
            Selector::Simple(s) => Specificity {
                ids: if s.id is Some { 1 } else { 0 },
                classes: s.class@.len() as usize,
                tags: if s.tag_name is Some { 1 } else { 0 },
            },
        }
    }

    pub fn specificity(&self) -> (r: Specificity)
        ensures
            r == self.spec_specificity(),
    {
        match self {
            Selector::Simple(s) => Specificity {
                ids: if s.id.is_some() { 1 } else { 0 },
                classes: s.class.len(),
                tags: if s.tag_name.is_some() { 1 } else { 0 },
            },
        }
    }
}

pub struct Declaration {
    pub nam: String,
    pub val: Value,
}

pub struct Rule {
    pub selectors: Vec<Selector>,
    pub declarations: Vec<Declaration>,
}

/// Rules in source order.
pub struct Stylesheet {
    pub rules: Vec<Rule>,
}

} // verus!
