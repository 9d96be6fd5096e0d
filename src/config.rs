use vstd::prelude::*;

verus! {

/// Where to read documents from and where to write the results.
pub struct Config {
    pub path: String,
    pub target_dir: String,
}

/// Which command-line argument is missing.
#[derive(Debug, Clone, Copy, PartialEq, Eq, Structural)]
pub enum ConfigError {
    MissingPath,
    MissingTargetDir,
}

impl ConfigError {
    /// A message for people.
    pub fn message(&self) -> (r: &'static str)
        ensures
            *self == ConfigError::MissingPath ==> r@ == "Path not specified"@,
            *self == ConfigError::MissingTargetDir ==> r@ == "Target dir not specified"@,
    {
        match self {
            ConfigError::MissingPath => "Path not specified",
            ConfigError::MissingTargetDir => "Target dir not specified",
        }
    }
}

impl Config {
    /// Reads the command line: the program name, then the source path, then the target
    /// directory; anything after them is ignored.
    pub fn build(args: Vec<String>) -> (r: Result<Config, ConfigError>)
        ensures
            args.len() < 2 ==> r == Err::<Config, ConfigError>(ConfigError::MissingPath),
            args.len() == 2 ==> r == Err::<Config, ConfigError>(ConfigError::MissingTargetDir),
            args.len() > 2 ==> r is Ok && r->Ok_0.path == args[1] && r->Ok_0.target_dir
                == args[2],
    {
        if args.len() < 2 {
            return Err(ConfigError::MissingPath);
        }
        if args.len() < 3 {
            return Err(ConfigError::MissingTargetDir);
        }
        let path = args[1].clone();
        let target_dir = args[2].clone();
        Ok(Config { path, target_dir })
    }
}

} // verus!
