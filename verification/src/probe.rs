//! Existence checks run in order: what each runs, what it reports when it
//! finds nothing, and the verdict once they have run.

use vstd::prelude::*;

use crate::text::views;

verus! {

/// One existence check: the `ip` arguments to run and the error when nothing is found.
#[derive(Clone, Debug)]
pub struct Probe<E> {
    pub args: Vec<String>,
    pub missing: E,
}

/// The argument views of a sequence of probes.
pub open spec fn probe_args<E>(p: Seq<Probe<E>>) -> Seq<Seq<Seq<char>>> {
    p.map_values(|x: Probe<E>| views(x.args@))
}

/// The errors of a sequence of probes.
pub open spec fn probe_errors<E>(p: Seq<Probe<E>>) -> Seq<E> {
    p.map_values(|x: Probe<E>| x.missing)
}

/// The error of the first check, among those with a result, that found nothing.
pub open spec fn first_missing<E>(errors: Seq<E>, found: Seq<bool>) -> Option<E>
    decreases found.len(),
{
    if found.len() == 0 || errors.len() == 0 {
        None
    } else if !found[0] {
        Some(errors[0])
    } else {
        first_missing(errors.drop_first(), found.drop_first())
    }
}

/// The verdict once checks have run in order until one found nothing
/// (`found[k]` for `probes[k]`): the error of the first check that found
/// nothing, else success. Results beyond the last probe are not read.
pub fn first_failure<E>(probes: Vec<Probe<E>>, found: &Vec<bool>) -> (r: Result<(), E>)
    ensures
        match first_missing(probe_errors(probes@), found@) {
            Some(e) => r == Err::<(), E>(e),
            None => r is Ok,
        },
{
    let mut checks = probes;
    let ghost errs = probe_errors(checks@);
    let mut k: usize = 0;
    assert(errs.skip(0) =~= errs);
    assert(found@.skip(0) =~= found@);
    while k < found.len() && k < checks.len()
        invariant
            k <= found@.len(),
            k <= checks@.len(),
            errs == probe_errors(checks@),
            errs == probe_errors(probes@),
            first_missing(errs, found@) == first_missing(errs.skip(k as int), found@.skip(k as int)),
        decreases found@.len() - k,
    {
        assert(errs.skip(k as int).drop_first() =~= errs.skip(k + 1));
        assert(found@.skip(k as int).drop_first() =~= found@.skip(k + 1));
        assert(errs.skip(k as int)[0] == checks@[k as int].missing);
        assert(found@.skip(k as int)[0] == found@[k as int]);
        assert(errs.skip(k as int).len() > 0);
        if !found[k] {
            assert(first_missing(errs.skip(k as int), found@.skip(k as int)) == Some(
                checks@[k as int].missing,
            ));
            let p = checks.remove(k);
            return Err(p.missing);
        }
        k = k + 1;
    }
    assert(errs.skip(k as int).len() == 0 || found@.skip(k as int).len() == 0);
    Ok(())
}

} // verus!
