use vstd::prelude::*;

verus! {

/// Engine configuration: the settings the storage engine consumes.
///
/// An external loader reads them from wherever they live (a file, the
/// environment) and hands them over as plain values; the engine never
/// reaches into ambient process state to discover them.
pub struct AppConfig {
    /// Location of the durable substrate.
    pub db: String,
    /// The non-empty ordered list of permitted mailbox domains.
    pub domains: Vec<String>,
    /// Filesystem root for externally stored attachment payloads.
    pub storage: String,
}

/// The whole configuration, with the engine settings under `global`.
pub struct Config {
    pub global: AppConfig,
}

/// Get the database path.
pub fn get_db_path(config: &Config) -> (r: String)
    ensures
        r == config.global.db,
{
    config.global.db.clone()
}

/// Get the domains.
pub fn get_domains(config: &Config) -> (r: Vec<String>)
    ensures
        r@ == config.global.domains@,
{
    let mut out: Vec<String> = Vec::new();
    let n = config.global.domains.len();
    let mut i: usize = 0;
    while i < n
        invariant
            i <= n,
            n == config.global.domains@.len(),
            out@ == config.global.domains@.take(i as int),
        decreases n - i,
    {
        out.push(config.global.domains[i].clone());
        proof {
            assert(out@ =~= config.global.domains@.take(i + 1 as int));
        }
        i = i + 1;
    }
    proof {
        assert(out@ =~= config.global.domains@);
    }
    out
}

/// Get the storage path.
pub fn get_storage(config: &Config) -> (r: String)
    ensures
        r == config.global.storage,
{
    config.global.storage.clone()
}

} // verus!
