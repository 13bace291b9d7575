//! The session-level Lua simulation: which scripts its thread runs.

use vstd::prelude::*;

verus! {

/// A session script: its name, its Lua source and whether the simulation runs it.
pub struct ScriptDef {
    pub name: String,
    pub code: String,
    pub enabled: bool,
}

/// The (name, source) texts of the enabled scripts, in order.
pub open spec fn enabled_spec(scripts: Seq<ScriptDef>) -> Seq<(Seq<char>, Seq<char>)>
    decreases scripts.len(),
{
    if scripts.len() == 0 {
        Seq::empty()
    } else {
        let rest = enabled_spec(scripts.drop_last());
        let s = scripts.last();
        if s.enabled {
            rest.push((s.name@, s.code@))
        } else {
            rest
        }
    }
}

/// The texts of a list of (name, source) pairs.
pub open spec fn pair_views(ps: Seq<(String, String)>) -> Seq<(Seq<char>, Seq<char>)> {
    ps.map_values(|p: (String, String)| (p.0@, p.1@))
}

/// The (name, source) pairs of the enabled scripts, in order: what a (re)started
/// simulation loads. When it is empty the simulation stays stopped.
pub fn enabled_scripts(scripts: &[ScriptDef]) -> (r: Vec<(String, String)>)
    ensures
        pair_views(r@) == enabled_spec(scripts@),
{
    let mut out: Vec<(String, String)> = Vec::new();
    let mut i: usize = 0;
    while i < scripts.len()
        invariant
            i <= scripts@.len(),
            pair_views(out@) == enabled_spec(scripts@.take(i as int)),
        decreases scripts@.len() - i,
    {
        assert(scripts@.take(i + 1).drop_last() =~= scripts@.take(i as int));
        let s = &scripts[i];
        if s.enabled {
            let p = (s.name.clone(), s.code.clone());
            let ghost before = out@;
            out.push(p);
            assert(pair_views(out@) =~= pair_views(before).push((p.0@, p.1@)));
        }
        i = i + 1;
    }
    assert(scripts@.take(scripts@.len() as int) =~= scripts@);
    out
}

} // verus!
