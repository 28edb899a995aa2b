use vstd::prelude::*;

verus! {

/// Unicode's White_Space property, as `char::is_whitespace` gives it.
pub uninterp spec fn white(c: char) -> bool;

/// Relies on `char::is_whitespace`: the answer depends on the character
/// alone, and the ASCII blanks are whitespace.
#[verifier::external_body]
fn is_whitespace(c: char) -> (r: bool)
    ensures
        r == white(c),
        crate::text::is_space(c) ==> r,
{
    c.is_whitespace()
}

/// A cursor over an input string; `pos` counts characters.
pub struct Parser {
    pub pos: usize,
    pub inp: String,
}

impl Parser {
    pub open spec fn input(&self) -> Seq<char> {
        self.inp@
    }

    pub open spec fn position(&self) -> int {
        self.pos as int
    }

    /// The characters not yet consumed.
    pub open spec fn rest(&self) -> Seq<char> {
        self.inp@.subrange(self.pos as int, self.inp@.len() as int)
    }

    pub open spec fn wf(&self) -> bool {
        self.pos <= self.inp@.len()
    }

    /// A parser at the start of `inp`.
    pub fn new(inp: String) -> (r: Parser)
        ensures
            r.wf(),
            r.input() == inp@,
            r.position() == 0,
    {
        Parser { pos: 0, inp }
    }

    /// Read the current character without consuming it.
    pub fn next_char(&self) -> (r: char)
        requires
            self.wf(),
            self.pos < self.inp@.len(),
        ensures
            r == self.inp@[self.pos as int],
    {
        self.inp.as_str().get_char(self.pos)
    }

    /// Do the next characters start with the given string?
    pub fn starts_with(&self, s: &str) -> (r: bool)
        requires
            self.wf(),
        ensures
            r == (s@.len() <= self.rest().len() && self.rest().subrange(0, s@.len() as int) == s@),
    {
        let n = self.inp.as_str().unicode_len();
        let m = s.unicode_len();
        if m > n - self.pos {
            return false;
        }
        let mut i: usize = 0;
        while i < m
            invariant
                self.wf(),
                n == self.inp@.len(),
                m == s@.len(),
                m <= n - self.pos,
                i <= m,
                forall|j: int| 0 <= j < i ==> self.inp@[self.pos + j] == s@[j],
            decreases m - i,
        {
            if self.inp.as_str().get_char(self.pos + i) != s.get_char(i) {
                assert(self.rest().subrange(0, m as int)[i as int] != s@[i as int]);
                return false;
            }
            i = i + 1;
        }
        assert(self.rest().subrange(0, m as int) =~= s@);
        true
    }

    /// Return true if all input is consumed.
    pub fn eof(&self) -> (r: bool)
        requires
            self.wf(),
        ensures
            r == (self.pos >= self.inp@.len()),
    {
        self.pos >= self.inp.as_str().unicode_len()
    }

    /// Return the current character, and advance to the next one.
    pub fn cnsm_chr(&mut self) -> (r: char)
        requires
            old(self).wf(),
            old(self).pos < old(self).inp@.len(),
        ensures
            final(self).wf(),
            r == old(self).inp@[old(self).pos as int],
            final(self).inp == old(self).inp,
            final(self).pos == old(self).pos + 1,
    {
        let c = self.inp.as_str().get_char(self.pos);
        let _n = self.inp.as_str().unicode_len();
        self.pos = self.pos + 1;
        c
    }

    /// Consume characters while `test` holds of them, and return them.
    pub fn cnsm_while<F: Fn(char) -> bool>(&mut self, test: F) -> (r: String)
        requires
            old(self).wf(),
            forall|c: char| test.requires((c,)),
        ensures
            final(self).wf(),
            final(self).inp == old(self).inp,
            old(self).pos <= final(self).pos,
            r@ == old(self).inp@.subrange(old(self).pos as int, final(self).pos as int),
            forall|i: int| 0 <= i < r@.len() ==> test.ensures((r@[i],), true),
            final(self).pos < final(self).inp@.len() ==> test.ensures(
                (final(self).inp@[final(self).pos as int],),
                false,
            ),
    {
        let start = self.pos;
        let n = self.inp.as_str().unicode_len();
        let mut done = false;
        while !done && self.pos < n
            invariant
                self.wf(),
                n == self.inp@.len(),
                self.inp == old(self).inp,
                start == old(self).pos,
                start <= self.pos,
                forall|c: char| test.requires((c,)),
                forall|i: int| start <= i < self.pos ==> test.ensures((self.inp@[i],), true),
                done ==> self.pos < n && test.ensures((self.inp@[self.pos as int],), false),
            decreases n - self.pos + (if done { 0int } else { 1int }),
        {
            let c = self.next_char();
            if test(c) {
                self.pos = self.pos + 1;
            } else {
                done = true;
            }
        }
        let r = self.inp.as_str().substring_char(start, self.pos).to_owned();
        r
    }

    /// Consume and discard zero or more whitespace characters.
    pub fn cnsm_whitespace(&mut self)
        requires
            old(self).wf(),
        ensures
            final(self).wf(),
            final(self).inp == old(self).inp,
            old(self).pos <= final(self).pos,
            forall|i: int| old(self).pos <= i < final(self).pos ==> white(#[trigger] final(self).inp@[i]),
            final(self).pos < final(self).inp@.len() ==> !white(final(self).inp@[final(self).pos as int]),
    {
        let ghost p0 = self.pos;
        let r = self.cnsm_while(|c: char| -> (r: bool) ensures r == white(c) { is_whitespace(c) });
        assert forall|i: int| p0 <= i < self.pos implies white(#[trigger] self.inp@[i]) by {
            assert(r@[i - p0] == self.inp@[i]);
        }
    }
}

} // verus!
