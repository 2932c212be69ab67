//! Making the machine that transactions are executed on.
use crate::text;
use crate::text::contains_part;
use vstd::prelude::*;

verus! {

/// The inspector that looks at nothing.
#[derive(Debug, Clone, Copy, PartialEq, Eq)]
pub struct NoOpInspector;

/// A machine on a database, in an environment, watched by an inspector. `inspect` says whether the
/// inspector is called, `trace` whether transactions are replayed rather than executed for good.
#[derive(Debug)]
pub struct BscEvm<DB, Env, I> {
    pub env: Env,
    pub db: DB,
    pub inspector: I,
    pub inspect: bool,
    pub trace: bool,
}

impl<DB, Env, I> BscEvm<DB, Env, I> {
    pub fn new(env: Env, db: DB, inspector: I, inspect: bool, trace: bool) -> (r: Self)
        ensures
            r == (BscEvm { env, db, inspector, inspect, trace }),
    {
        BscEvm { env, db, inspector, inspect, trace }
    }
}

/// Factory producing [`BscEvm`].
#[derive(Debug, Clone, Copy)]
#[non_exhaustive]
pub struct BscEvmFactory;

impl Default for BscEvmFactory {
    fn default() -> (r: Self)
        ensures
            r == BscEvmFactory,
    {
        BscEvmFactory
    }
}

/// Whether a database with a type of this name is one on which transactions are replayed.
pub fn is_trace_database(name: &str) -> (r: bool)
    ensures
        r == text::has_part(name@, "CacheDB"@),
{
    contains_part(name, "CacheDB")
}

impl BscEvmFactory {
    /// A machine without an inspector. A database whose type has this name may be one on which
    /// transactions are replayed, and then it traces.
    pub fn create_evm<DB, Env>(&self, db: DB, input: Env, db_name: &str) -> (r: BscEvm<
        DB,
        Env,
        NoOpInspector,
    >)
        ensures
            r == (BscEvm {
                env: input,
                db,
                inspector: NoOpInspector,
                inspect: false,
                trace: text::has_part(db_name@, "CacheDB"@),
            }),
    {
        let is_trace = is_trace_database(db_name);
        BscEvm::new(input, db, NoOpInspector, false, is_trace)
    }

    /// A machine with an inspector, which is always called, and always traces.
    pub fn create_evm_with_inspector<DB, Env, I>(&self, db: DB, input: Env, inspector: I) -> (r:
        BscEvm<DB, Env, I>)
        ensures
            r == (BscEvm { env: input, db, inspector, inspect: true, trace: true }),
    {
        BscEvm::new(input, db, inspector, true, true)
    }
}

} // verus!
