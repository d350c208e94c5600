use vstd::prelude::*;

verus! {

/// A cursor over the characters of a program.
pub struct Reader<'a> {
    program: &'a Vec<char>,
    cursor: usize,
}

impl<'a> Reader<'a> {
    pub closed spec fn text(&self) -> Seq<char> {
        self.program@
    }

    pub closed spec fn pos(&self) -> nat {
        self.cursor as nat
    }

    pub fn new(program: &'a Vec<char>) -> (r: Self)
        ensures
            r.text() == program@,
            r.pos() == 0,
    {
        Reader { program, cursor: 0 }
    }

    /// The character under the cursor, if the cursor is inside the text.
    pub fn current(&self) -> (r: Option<&'a char>)
        ensures
            self.pos() < self.text().len() ==> r == Some(&self.text()[self.pos() as int]),
            self.pos() >= self.text().len() ==> r.is_none(),
    {
        if self.cursor < self.program.len() {
            Some(&self.program[self.cursor])
        } else {
            None
        }
    }

    pub fn is_eof(&self) -> (r: bool)
        ensures
            r == (self.pos() >= self.text().len()),
    {
        self.cursor >= self.program.len()
    }

    /// Moves the cursor one character on.
    pub fn next(&mut self)
        requires
            old(self).pos() < usize::MAX,
        ensures
            final(self).text() == old(self).text(),
            final(self).pos() == old(self).pos() + 1,
    {
        self.cursor = self.cursor + 1;
    }
}

} // verus!
