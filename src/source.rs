use std::str::Chars;
use vstd::prelude::*;
use vstd::std_specs::iter::IteratorSpec;

verus! {

broadcast use vstd::string::group_string_axioms;

/// The characters that a scanner has yet to act on: the lookahead, if any,
/// followed by what the character source still holds. Once the source has
/// reported its end, nothing is left.
pub open spec fn stream(next: Option<char>, rest: Seq<char>) -> Seq<char> {
    match next {
        Some(c) => seq![c] + rest,
        None => Seq::empty(),
    }
}

/// A forward-only source of characters: each character can be pulled once,
/// in order, and none can be put back.
pub struct Source {
    chars: Vec<char>,
    pos: usize,
}

impl View for Source {
    /// The characters not yet pulled.
    type V = Seq<char>;

    closed spec fn view(&self) -> Seq<char> {
        self.chars@.subrange(self.pos as int, self.chars@.len() as int)
    }
}

impl Source {
    #[verifier::type_invariant]
    spec fn inv(&self) -> bool {
        self.pos <= self.chars.len()
    }

    /// A source that yields the characters of `s`.
    pub fn new(s: &str) -> (r: Source)
        ensures
            r@ == s@,
    {
        let mut it: Chars = s.chars();
        let mut chars: Vec<char> = Vec::new();
        loop
            invariant
                (chars@ + it.remaining()) =~= s@,
                it.decrease() is Some,
            decreases it.decrease()->0,
        {
            match it.next() {
                Some(c) => chars.push(c),
                None => {
                    let r = Source { chars, pos: 0 };
                    assert(r@ =~= chars@);
                    return r;
                },
            }
        }
    }

    /// Pulls the next character, or `None` at the end of the input.
    pub fn next(&mut self) -> (r: Option<char>)
        ensures
            stream(r, final(self)@) == old(self)@,
            r is None ==> final(self)@.len() == 0,
    {
        proof {
            use_type_invariant(&*self);
        }
        if self.pos < self.chars.len() {
            let c = self.chars[self.pos];
            self.pos = self.pos + 1;
            assert(stream(Some(c), self@) =~= old(self)@);
            Some(c)
        } else {
            None
        }
    }
}

} // verus!
