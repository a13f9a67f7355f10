//! Template handling with one fixed placeholder between the quasis.
use vstd::prelude::*;

use crate::tpl_processor::Template;
use crate::utils::text::{join, lemma_join_push, split, split_str};
use crate::utils::tpl::zip_replace;

verus! {

broadcast use vstd::seq_lib::group_seq_properties;

/// The quasis of the template with the placeholder between each two neighbours.
pub fn join_quasis<E>(tpl: &Template<E>, placeholder: &str) -> (res: String)
    ensures
        res@ == join(tpl.raws(), placeholder@),
{
    let ghost raws = tpl.raws();
    let mut res = String::new();
    let n = tpl.quasis.len();
    let mut i: usize = 0;
    while i < n
        invariant
            i <= n == tpl.quasis.len(),
            raws == tpl.raws(),
            res@ == join(raws.take(i as int), placeholder@),
        decreases n - i,
    {
        if i > 0 {
            res.append(placeholder);
            proof {
                lemma_join_push(raws.take(i as int), placeholder@, raws[i as int]);
            }
        } else {
            assert(join(raws.take(1), placeholder@) == raws[0]);
        }
        res.append(tpl.quasis[i].as_str());
        assert(raws.take(i + 1) =~= raws.take(i as int).push(raws[i as int]));
        i += 1;
    }
    assert(raws.take(n as int) =~= raws);
    res
}

/// The quasis take, pairwise, the pieces of the new text between the
/// occurrences of the placeholder.
pub fn replace_quasis<E>(tpl: &mut Template<E>, new_raw: &str, placeholder: &str)
    ensures
        final(tpl).raws() == zip_replace(old(tpl).raws(), split(new_raw@, placeholder@)),
        final(tpl).exprs@ == old(tpl).exprs@,
{
    let new_quasis = split_str(new_raw, placeholder);
    crate::utils::tpl::replace_quasis(tpl, new_quasis);
}

} // verus!
