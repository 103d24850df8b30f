//! The command line: a global recipes directory and log level, and one command.

use vstd::prelude::*;

verus! {

/// The parsed command line.
#[derive(Debug)]
pub struct Cli {
    /// Directory containing `.cook` files (searched recursively).
    pub recipes_dir: Option<String>,
    /// Log level, `info` by default.
    pub log_level: String,
    pub command: Command,
}

/// The commands.
#[derive(Debug)]
pub enum Command {
    /// Run the HTTP server.
    Serve(ServeArgs),
    /// Parse and check files; non-zero exit on errors.
    Validate(ValidateArgs),
    /// Print all recipe families and their current versions.
    List,
    /// Print the version table of one recipe family.
    Versions(VersionsArgs),
    /// Generate a shopping list for one or more recipes.
    Shopping(ShoppingArgs),
    /// Print the program's version.
    Version,
}

/// Options of `serve`.
#[derive(Debug)]
pub struct ServeArgs {
    /// Address to listen on, `127.0.0.1:8080` by default.
    pub bind: String,
    /// Path the app is mounted under, `/` by default.
    pub base_path: String,
    /// Absolute public URL of the server, used for links in shopping lists;
    /// when unset it is derived from the request headers.
    pub public_url: Option<String>,
}

/// Options of `validate`.
#[derive(Debug)]
pub struct ValidateArgs {
    /// File or directory to validate (directories recursively).
    pub path: String,
}

/// Options of `versions`.
#[derive(Debug)]
pub struct VersionsArgs {
    /// Recipe family slug.
    pub slug: String,
}

/// Options of `shopping`.
#[derive(Debug)]
pub struct ShoppingArgs {
    /// One or more recipes: `slug` (current version) or `slug@v1-2`.
    pub recipes: Vec<String>,
    /// Output format, `text` by default.
    pub format: String,
    /// Absolute base URL for links to the source recipes.
    pub link_base: Option<String>,
    /// Servings overrides, e.g. `carbonara=4,risotto=2`.
    pub servings: Option<String>,
    /// Repeat-batch multipliers, e.g. `overnight-oats=3`.
    pub multiplier: Option<String>,
}

} // verus!
