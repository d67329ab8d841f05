//! Standardized per-application paths, named by an application name.
//!
//! The library decides where each path lies below a base directory of the
//! platform; looking the base directories up and creating directories is left
//! to the caller.
use vstd::prelude::*;

verus! {

broadcast use vstd::string::group_string_axioms;

/// A base directory of the platform.
#[derive(Clone, Copy, Debug, PartialEq, Eq, Structural)]
pub enum BaseDir {
    /// The local configuration directory (`dirs::config_local_dir`).
    ConfigLocal,
    /// The local data directory (`dirs::data_local_dir`).
    DataLocal,
}

/// A directory: a base directory followed by path components.
#[derive(Debug)]
pub struct DirPath {
    pub base: BaseDir,
    pub components: Vec<String>,
}

/// A file in a directory.
#[derive(Debug)]
pub struct FilePath {
    pub dir: DirPath,
    pub file_name: String,
}

/// The components of a directory path.
pub open spec fn components_view(d: DirPath) -> Seq<Seq<char>> {
    d.components@.map_values(|c: String| c@)
}

/// Standardized paths based on an application name.
///
/// Directory paths are meant to exist once they are handed out, file paths
/// need not.
#[derive(Debug)]
pub struct ApplicationPaths {
    appname: String,
}

impl ApplicationPaths {
    /// The application name.
    pub closed spec fn spec_app_name(&self) -> Seq<char> {
        self.appname@
    }

    /// Paths for the application `appname`.
    pub fn from(appname: &str) -> (p: Self)
        ensures
            p.spec_app_name() == appname@,
    {
        ApplicationPaths { appname: appname.to_owned() }
    }

    /// The application name.
    pub fn app_name(&self) -> (n: &str)
        ensures
            n@ == self.spec_app_name(),
    {
        self.appname.as_str()
    }

    /// The application's config directory: `<config_local_dir>/<app name>`.
    pub fn config_dir(&self) -> (d: DirPath)
        ensures
            d.base == BaseDir::ConfigLocal,
            components_view(d) == seq![self.spec_app_name()],
    {
        self.cratify(BaseDir::ConfigLocal, None)
    }

    /// The application's main config file with the given extension:
    /// `config.<extension>` in the config directory.
    pub fn config_file(&self, extension: &str) -> (f: FilePath)
        ensures
            f.dir.base == BaseDir::ConfigLocal,
            components_view(f.dir) == seq![self.spec_app_name()],
            f.file_name@ == "config."@ + extension@,
    {
        let dir = self.config_dir();
        let mut file_name = "config.".to_owned();
        file_name.append(extension);
        FilePath { dir, file_name }
    }

    /// The application's log directory: `<data_local_dir>/<app name>/logs`.
    pub fn logs_dir(&self) -> (d: DirPath)
        ensures
            d.base == BaseDir::DataLocal,
            components_view(d) == seq![self.spec_app_name(), "logs"@],
    {
        self.cratify(BaseDir::DataLocal, Some("logs"))
    }

    /// The application's main log file: `main.log` in the log directory.
    pub fn log_file(&self) -> (f: FilePath)
        ensures
            f.dir.base == BaseDir::DataLocal,
            components_view(f.dir) == seq![self.spec_app_name(), "logs"@],
            f.file_name@ == "main.log"@,
    {
        let dir = self.logs_dir();
        FilePath { dir, file_name: "main.log".to_owned() }
    }

    /// The application's data directory: `<data_local_dir>/<app name>/data`.
    pub fn data_dir(&self) -> (d: DirPath)
        ensures
            d.base == BaseDir::DataLocal,
            components_view(d) == seq![self.spec_app_name(), "data"@],
    {
        self.cratify(BaseDir::DataLocal, Some("data"))
    }

    /// The application's directory below `base`, and the subdirectory
    /// `subdir` of it when one is given.
    fn cratify(&self, base: BaseDir, subdir: Option<&str>) -> (d: DirPath)
        ensures
            d.base == base,
            components_view(d) == match subdir {
                Some(s) => seq![self.spec_app_name(), s@],
                None => seq![self.spec_app_name()],
            },
    {
        let mut components: Vec<String> = Vec::new();
        components.push(self.appname.clone());
        match subdir {
            Some(s) => components.push(s.to_owned()),
            None => {},
        }
        let d = DirPath { base, components };
        proof {
            match subdir {
                Some(s) => assert(components_view(d) =~= seq![self.spec_app_name(), s@]),
                None => assert(components_view(d) =~= seq![self.spec_app_name()]),
            }
        }
        d
    }
}

} // verus!
