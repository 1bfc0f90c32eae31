//! Where the daemon keeps its files.

use vstd::prelude::*;
use vstd::string::*;

use crate::text::{chars_of, join2, join3};
use crate::types::opt_text;

verus! {

/// Why there is no home directory.
#[derive(Clone, Copy, Debug, PartialEq, Eq, Structural)]
pub enum PathError {
    EmptySidebarHome,
    EmptyHome,
    NoHome,
}

impl PathError {
    /// The error in words.
    pub open spec fn words(self) -> Seq<char> {
        match self {
            PathError::EmptySidebarHome =>
                "SIDEBAR_HOME is set but empty; unset it or set a real path"@,
            PathError::EmptyHome => "HOME is set but empty; unset it or set a real path"@,
            PathError::NoHome => "HOME not set"@,
        }
    }

    /// The error in words.
    pub fn message(&self) -> (r: String)
        ensures
            r@ == self.words(),
    {
        match self {
            PathError::EmptySidebarHome =>
                "SIDEBAR_HOME is set but empty; unset it or set a real path".to_owned(),
            PathError::EmptyHome => "HOME is set but empty; unset it or set a real path".to_owned(),
            PathError::NoHome => "HOME not set".to_owned(),
        }
    }
}

/// A path and a name under it: one slash stands between them.
pub open spec fn under(dir: Seq<char>, name: Seq<char>) -> Seq<char> {
    if dir.len() > 0 && dir.last() == '/' {
        dir + name
    } else {
        dir + "/"@ + name
    }
}

fn join(dir: &str, name: &str) -> (r: String)
    ensures
        r@ == under(dir@, name@),
{
    let chars = chars_of(dir);
    let n: usize = chars.len();
    if n > 0 && chars[n - 1] == '/' {
        join2(dir, name)
    } else {
        join3(dir, "/", name)
    }
}

/// The daemon's directory, given the values of `SIDEBAR_HOME` and `HOME`.
pub open spec fn home_path(sidebar_home: Option<Seq<char>>, home: Option<Seq<char>>) -> Result<
    Seq<char>,
    PathError,
> {
    match sidebar_home {
        Some(dir) => if dir.len() == 0 {
            Err(PathError::EmptySidebarHome)
        } else {
            Ok(dir)
        },
        None => match home {
            Some(dir) => if dir.len() == 0 {
                Err(PathError::EmptyHome)
            } else {
                Ok(under(dir, ".sidebar"@))
            },
            None => Err(PathError::NoHome),
        },
    }
}

/// The path of a file in the daemon's directory.
pub open spec fn file_path(
    sidebar_home: Option<Seq<char>>,
    home: Option<Seq<char>>,
    name: Seq<char>,
) -> Result<Seq<char>, PathError> {
    match home_path(sidebar_home, home) {
        Ok(dir) => Ok(under(dir, name)),
        Err(e) => Err(e),
    }
}

/// The view of a path that may be missing.
pub open spec fn path_view(r: Result<String, PathError>) -> Result<Seq<char>, PathError> {
    match r {
        Ok(s) => Ok(s@),
        Err(e) => Err(e),
    }
}

/// The daemon's directory, given the values of `SIDEBAR_HOME` and `HOME`.
pub fn home(sidebar_home: &Option<String>, user_home: &Option<String>) -> (r: Result<String, PathError>)
    ensures
        path_view(r) == home_path(opt_text(*sidebar_home), opt_text(*user_home)),
{
    match sidebar_home {
        Some(dir) => if dir.as_str().unicode_len() == 0 {
            Err(PathError::EmptySidebarHome)
        } else {
            Ok(dir.clone())
        },
        None => match user_home {
            Some(dir) => if dir.as_str().unicode_len() == 0 {
                Err(PathError::EmptyHome)
            } else {
                Ok(join(dir.as_str(), ".sidebar"))
            },
            None => Err(PathError::NoHome),
        },
    }
}

/// The path of the daemon's socket.
pub fn socket(sidebar_home: &Option<String>, user_home: &Option<String>) -> (r: Result<
    String,
    PathError,
>)
    ensures
        path_view(r) == file_path(opt_text(*sidebar_home), opt_text(*user_home), "sidebar.sock"@),
{
    match home(sidebar_home, user_home) {
        Ok(dir) => Ok(join(dir.as_str(), "sidebar.sock")),
        Err(e) => Err(e),
    }
}

/// The path of the daemon's database.
pub fn db(sidebar_home: &Option<String>, user_home: &Option<String>) -> (r: Result<String, PathError>)
    ensures
        path_view(r) == file_path(opt_text(*sidebar_home), opt_text(*user_home), "sidebar.db"@),
{
    match home(sidebar_home, user_home) {
        Ok(dir) => Ok(join(dir.as_str(), "sidebar.db")),
        Err(e) => Err(e),
    }
}

} // verus!
