//! A cursor over a token sequence.

use vstd::prelude::*;
use crate::source::{matches_outcome, ParseError, ParseET, ParseETView, ParseErrorView, Span};
use crate::tokens::tokens::Token;

verus! {

/// The token sequence and the index of the token under the cursor.
#[derive(Debug)]
pub struct TokIter {
    pub vec: Vec<Token>,
    pub index: usize,
}

/// The place to blame when a token is missing: the token under the cursor,
/// the last token when the cursor is past the end, and no place at all when
/// there are no tokens.
pub open spec fn nearest_point_of(ts: Seq<Token>, cursor: int) -> Result<Span, ParseErrorView> {
    if ts.len() == 0 {
        Err(ParseETView::EmptyInput.error())
    } else if cursor >= ts.len() || cursor < 0 {
        Ok(ts.last().loc)
    } else {
        Ok(ts[cursor].loc)
    }
}

/// The failure for work `doing` that needed a token the sequence does not hold.
pub open spec fn missing_token(ts: Seq<Token>, cursor: int, doing: Seq<char>) -> ParseErrorView {
    match nearest_point_of(ts, cursor) {
        Ok(loc) => ParseETView::EOF.at(loc).when(doing),
        Err(e) => e,
    }
}

/// The token at `index`, or the failure for its absence.
pub open spec fn token_at(ts: Seq<Token>, cursor: int, index: int) -> Result<Token, ParseErrorView> {
    if 0 <= index < ts.len() {
        Ok(ts[index])
    } else {
        Err(missing_token(ts, cursor, "trying to get token"@))
    }
}

impl TokIter {
/// A cursor on the first of the tokens.
    pub fn new(vec: Vec<Token>) -> (res: Self)
        ensures
            res.vec == vec,
            res.index == 0,
    {
        Self { vec, index: 0 }
    }

    /// A copy of the token at `index`.
    pub fn get(&self, index: usize) -> (res: Result<Token, ParseError>)
        ensures
            matches_outcome(res, token_at(self.vec@, self.index as int, index as int)),
    {
        if index < self.vec.len() {
            Ok(self.vec[index].clone())
        } else {
            match self.nearest_point() {
                Ok(loc) => Err(ParseET::EOF.at(loc).when("trying to get token")),
                Err(e) => Err(e),
            }
        }
    }

/// The place to blame when a token is missing: the token under the
/// cursor, the last token when the cursor is past the end, and a failure
/// of its own when there are no tokens.
    pub fn nearest_point(&self) -> (res: Result<Span, ParseError>)
        ensures
            matches_outcome(res, nearest_point_of(self.vec@, self.index as int)),
    {
        let n = self.vec.len();
        if n == 0 {
            Err(ParseET::EmptyInput.error())
        } else if self.index >= n {
            Ok(self.vec[n - 1].loc.clone())
        } else {
            Ok(self.vec[self.index].loc.clone())
        }
    }

    /// A copy of the token under the cursor.
    pub fn this(&self) -> (res: Result<Token, ParseError>)
        ensures
            matches_outcome(res, token_at(self.vec@, self.index as int, self.index as int)),
    {
        self.get(self.index)
    }

    /// Moves the cursor one token on.
    pub fn next(&mut self)
        requires
            old(self).index < usize::MAX,
        ensures
            final(self).vec == old(self).vec,
            final(self).index == old(self).index + 1,
    {
        self.index += 1;
    }

/// How many tokens there are.
    pub fn len(&self) -> (res: usize)
        ensures
            res == self.vec@.len(),
    {
        self.vec.len()
    }

    /// How many tokens lie at or after the cursor.
    pub fn left(&self) -> (res: usize)
        requires
            self.index <= self.vec@.len(),
        ensures
            res == self.vec@.len() - self.index,
    {
        self.vec.len() - self.index
    }

    /// Puts `t` before the token under the cursor and keeps the cursor on
    /// the token it was on.
    pub fn insert(&mut self, t: Token) -> (res: Result<(), ParseError>)
        ensures
            old(self).index < old(self).vec@.len() ==> res is Ok
                && final(self).vec@ == old(self).vec@.insert(old(self).index as int, t)
                && final(self).index == old(self).index + 1,
            old(self).index >= old(self).vec@.len() ==> res is Err
                && res->Err_0@ == missing_token(
                old(self).vec@,
                old(self).index as int,
                "trying to insert Token"@,
            ) && *final(self) == *old(self),
    {
        if self.index >= self.vec.len() {
            return Err(self.missing("trying to insert Token"));
        }
        self.vec.insert(self.index, t);
        self.index += 1;
        Ok(())
    }

    /// Puts `t` before the token under the cursor; the cursor then stands
    /// on `t`.
    pub fn insert_stay(&mut self, t: Token) -> (res: Result<(), ParseError>)
        ensures
            old(self).index < old(self).vec@.len() ==> res is Ok
                && final(self).vec@ == old(self).vec@.insert(old(self).index as int, t)
                && final(self).index == old(self).index,
            old(self).index >= old(self).vec@.len() ==> res is Err
                && res->Err_0@ == missing_token(
                old(self).vec@,
                old(self).index as int,
                "trying to insert Token"@,
            ) && *final(self) == *old(self),
    {
        if self.index >= self.vec.len() {
            return Err(self.missing("trying to insert Token"));
        }
        self.vec.insert(self.index, t);
        Ok(())
    }

    /// Appends `t` and steps the cursor one token back.
    pub fn push(&mut self, t: Token)
        requires
            old(self).index > 0,
        ensures
            final(self).vec@ == old(self).vec@.push(t),
            final(self).index == old(self).index - 1,
    {
        self.index -= 1;
        self.vec.push(t);
    }

    /// Appends `t` and leaves the cursor alone.
    pub fn push_stay(&mut self, t: Token)
        ensures
            final(self).vec@ == old(self).vec@.push(t),
            final(self).index == old(self).index,
    {
        self.vec.push(t);
    }

    /// Takes the last token off and steps the cursor one token back.
    pub fn pop(&mut self) -> (res: Result<Token, ParseError>)
        requires
            old(self).index > 0,
        ensures
            final(self).index == old(self).index - 1,
            old(self).vec@.len() > 0 ==> res == Ok::<Token, ParseError>(old(self).vec@.last())
                && final(self).vec@ == old(self).vec@.drop_last(),
            old(self).vec@.len() == 0 ==> res is Err
                && res->Err_0@ == ParseETView::EmptyInput.error().when("trying to pop Token"@)
                && final(self).vec@ == old(self).vec@,
    {
        self.index -= 1;
        match self.vec.pop() {
            Some(t) => Ok(t),
            None => Err(ParseET::EmptyInput.error().when("trying to pop Token")),
        }
    }

    /// Takes the last token off and leaves the cursor alone.
    pub fn pop_stay(&mut self) -> (res: Result<Token, ParseError>)
        ensures
            final(self).index == old(self).index,
            old(self).vec@.len() > 0 ==> res == Ok::<Token, ParseError>(old(self).vec@.last())
                && final(self).vec@ == old(self).vec@.drop_last(),
            old(self).vec@.len() == 0 ==> res is Err
                && res->Err_0@ == ParseETView::EmptyInput.error().when("trying to pop Token"@)
                && final(self).vec@ == old(self).vec@,
    {
        match self.vec.pop() {
            Some(t) => Ok(t),
            None => Err(ParseET::EmptyInput.error().when("trying to pop Token")),
        }
    }

    /// Takes out the token under the cursor and steps the cursor one token
    /// back.
    pub fn remove(&mut self) -> (res: Result<Token, ParseError>)
        requires
            old(self).index < old(self).vec@.len() ==> old(self).index > 0,
        ensures
            old(self).index < old(self).vec@.len() ==> res == Ok::<Token, ParseError>(
                old(self).vec@[old(self).index as int],
            ) && final(self).vec@ == old(self).vec@.remove(old(self).index as int)
                && final(self).index == old(self).index - 1,
            old(self).index >= old(self).vec@.len() ==> res is Err
                && res->Err_0@ == missing_token(
                old(self).vec@,
                old(self).index as int,
                "trying to insert Token"@,
            ) && *final(self) == *old(self),
    {
        if self.index >= self.vec.len() {
            return Err(self.missing("trying to insert Token"));
        }
        let t = self.vec.remove(self.index);
        self.index -= 1;
        Ok(t)
    }

    /// Takes out the token under the cursor; the cursor then stands on the
    /// token that followed it.
    pub fn remove_stay(&mut self) -> (res: Result<Token, ParseError>)
        ensures
            old(self).index < old(self).vec@.len() ==> res == Ok::<Token, ParseError>(
                old(self).vec@[old(self).index as int],
            ) && final(self).vec@ == old(self).vec@.remove(old(self).index as int)
                && final(self).index == old(self).index,
            old(self).index >= old(self).vec@.len() ==> res is Err
                && res->Err_0@ == missing_token(
                old(self).vec@,
                old(self).index as int,
                "trying to insert Token"@,
            ) && *final(self) == *old(self),
    {
        if self.index >= self.vec.len() {
            return Err(self.missing("trying to insert Token"));
        }
        let t = self.vec.remove(self.index);
        Ok(t)
    }

    /// The failure for work that needed a token where there is none.
    fn missing(&self, doing: &str) -> (res: ParseError)
        ensures
            res@ == missing_token(self.vec@, self.index as int, doing@),
    {
        match self.nearest_point() {
            Ok(loc) => ParseET::EOF.at(loc).when(doing),
            Err(e) => e,
        }
    }
}

} // verus!
