//! Planning an import: where its output goes and whether that directory must
//! be created, and how a finished walk is reported.
use vstd::prelude::*;

use crate::text::owned;

verus! {

/// `p` joined onto `base` as a path: an absolute `p` replaces `base`,
/// otherwise a `/` separates them unless `base` is empty or ends in one.
pub open spec fn joined(base: Seq<char>, p: Seq<char>) -> Seq<char> {
    if p.len() > 0 && p[0] == '/' {
        p
    } else if base.len() == 0 || base.last() == '/' {
        base + p
    } else {
        base + "/"@ + p
    }
}

/// Joins a relative path onto a base path.
pub fn join_path(base: &str, p: &str) -> (r: String)
    ensures
        r@ == joined(base@, p@),
{
    let pn = p.unicode_len();
    if pn > 0 && p.get_char(0) == '/' {
        return owned(p);
    }
    let bn = base.unicode_len();
    let mut out = owned(base);
    if bn > 0 && base.get_char(bn - 1) != '/' {
        out.append("/");
    }
    out.append(p);
    out
}

/// Where an import writes, and whether that directory has to be created.
#[derive(Clone, Debug)]
pub struct OutputPlan {
    pub path: String,
    pub create: bool,
}

/// Plans the output directory. `canonical` is the canonical form of the
/// requested path where it exists; otherwise the requested path is taken
/// relative to `current_dir` and the directory chain is to be created.
pub fn plan_output(canonical: Option<String>, current_dir: &str, requested: &str) -> (r:
    OutputPlan)
    ensures
        canonical is Some ==> r.path@ == canonical->0@ && !r.create,
        canonical is None ==> r.path@ == joined(current_dir@, requested@) && r.create,
{
    match canonical {
        Some(path) => OutputPlan { path, create: false },
        None => OutputPlan { path: join_path(current_dir, requested), create: true },
    }
}

/// How a walk ended without a fault.
#[derive(Clone, Copy, Debug, PartialEq, Eq, Structural)]
pub enum WalkOutcome {
    Completed,
    Cancelled,
}

} // verus!
