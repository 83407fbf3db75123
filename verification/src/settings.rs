use vstd::prelude::*;

verus! {

/// Where the database lies and how much it may cache.
#[derive(Clone, Debug)]
pub struct Database {
    pub cache_capacity: u64,
    pub path: String,
}

/// What a node is configured with.
#[derive(Clone, Debug)]
pub struct Settings {
    pub template_directory: String,
    pub parent_address: Option<String>,
    pub database: Database,
}

/// The cache capacity that a database has where none is configured: one
/// gibibyte.
pub const DEFAULT_CACHE_CAPACITY: u64 = 1024 * 1024 * 1024;

impl Default for Database {
    /// A database in `database`, with the default cache capacity.
    fn default() -> (database: Database)
        ensures
            database.cache_capacity == DEFAULT_CACHE_CAPACITY,
            database.path@ == "database"@,
    {
        Database { cache_capacity: DEFAULT_CACHE_CAPACITY, path: "database".to_owned() }
    }
}

impl Default for Settings {
    /// A node without a parent, with its templates in `templates` and the
    /// default database.
    fn default() -> (settings: Settings)
        ensures
            settings.template_directory@ == "templates"@,
            settings.parent_address is None,
            settings.database.cache_capacity == DEFAULT_CACHE_CAPACITY,
            settings.database.path@ == "database"@,
    {
        Settings {
            template_directory: "templates".to_owned(),
            parent_address: None,
            database: Database::default(),
        }
    }
}

} // verus!
