//! The template literal model and the processors that rewrite it.
use vstd::prelude::*;

use crate::prelude::Result;

verus! {

/// A template literal: its raw text pieces (quasis) and the expressions that
/// stand between them.  A well-formed template has one quasi more than it has
/// expressions.
pub struct Template<E> {
    pub quasis: Vec<String>,
    pub exprs: Vec<E>,
}

impl<E> Template<E> {
    /// The raw text pieces as character sequences.
    pub open spec fn raws(&self) -> Seq<Seq<char>> {
        self.quasis@.map_values(|q: String| q@)
    }

    /// Both templates have the same raw text pieces and the same expressions.
    pub open spec fn same_as(&self, other: Template<E>) -> bool {
        &&& self.raws() == other.raws()
        &&& self.exprs@ == other.exprs@
    }
}

/// A processor that rewrites the text of a template literal in place.
pub trait TplProcessor: core::fmt::Debug {
    fn process_tpl<E: Clone>(&self, tpl: &mut Template<E>) -> Result<()>;
}

} // verus!
