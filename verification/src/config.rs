//! The configuration: where the blog data lives, and the Hatena Blog credentials.
//! Paths are held as text; the program turns them into file system paths.
use crate::text::{push_char, push_str};
use vstd::prelude::*;

verus! {

/// Where the data of the blog lives.
#[derive(Clone, Debug, Eq, PartialEq)]
pub struct Config {
    data_dir: String,
    hatena_blog_data_file: String,
    link_completion_rules_file: Option<String>,
}

/// An optional path as the contracts see it.
pub open spec fn opt_view(o: Option<String>) -> Option<Seq<char>> {
    match o {
        Some(s) => Some(s@),
        None => None,
    }
}

impl Config {
    pub closed spec fn data_dir_view(&self) -> Seq<char> {
        self.data_dir@
    }

    pub closed spec fn hatena_blog_data_file_view(&self) -> Seq<char> {
        self.hatena_blog_data_file@
    }

    pub closed spec fn link_completion_rules_file_view(&self) -> Option<Seq<char>> {
        opt_view(self.link_completion_rules_file)
    }

    pub fn new(
        data_dir: String,
        hatena_blog_data_file: String,
        link_completion_rules_file: Option<String>,
    ) -> (r: Self)
        ensures
            r.data_dir_view() == data_dir@,
            r.hatena_blog_data_file_view() == hatena_blog_data_file@,
            r.link_completion_rules_file_view() == opt_view(link_completion_rules_file),
    {
        Self { data_dir, hatena_blog_data_file, link_completion_rules_file }
    }

    pub fn data_dir(&self) -> (r: &str)
        ensures
            r@ == self.data_dir_view(),
    {
        self.data_dir.as_str()
    }

    pub fn hatena_blog_data_file(&self) -> (r: &str)
        ensures
            r@ == self.hatena_blog_data_file_view(),
    {
        self.hatena_blog_data_file.as_str()
    }

    pub fn link_completion_rules_file(&self) -> (r: Option<&str>)
        ensures
            match r {
                Some(p) => self.link_completion_rules_file_view() == Some(p@),
                None => self.link_completion_rules_file_view() is None,
            },
    {
        match &self.link_completion_rules_file {
            Some(p) => Some(p.as_str()),
            None => None,
        }
    }
}

/// The Hatena Blog credentials.
#[derive(Clone, Debug, Eq, PartialEq)]
pub struct Credentials {
    hatena_api_key: String,
    hatena_blog_id: String,
    hatena_id: String,
}

impl Credentials {
    pub closed spec fn views(&self) -> (Seq<char>, Seq<char>, Seq<char>) {
        (self.hatena_api_key@, self.hatena_blog_id@, self.hatena_id@)
    }

    pub fn new(hatena_api_key: String, hatena_blog_id: String, hatena_id: String) -> (r: Self)
        ensures
            r.views() == (hatena_api_key@, hatena_blog_id@, hatena_id@),
    {
        Self { hatena_api_key, hatena_blog_id, hatena_id }
    }

    pub fn hatena_api_key(&self) -> (r: &str)
        ensures
            r@ == self.views().0,
    {
        self.hatena_api_key.as_str()
    }

    pub fn hatena_blog_id(&self) -> (r: &str)
        ensures
            r@ == self.views().1,
    {
        self.hatena_blog_id.as_str()
    }

    pub fn hatena_id(&self) -> (r: &str)
        ensures
            r@ == self.views().2,
    {
        self.hatena_id.as_str()
    }
}

/// `dir` joined with a relative file name, as `Path::join` does on Unix: no
/// separator after an empty directory or one that already ends with `/`.
pub open spec fn join_path(dir: Seq<char>, name: Seq<char>) -> Seq<char> {
    if dir.len() == 0 || dir[dir.len() - 1] == '/' {
        dir + name
    } else {
        dir + seq!['/'] + name
    }
}

/// Joins a directory and a relative file name.
pub fn join_path_x(dir: &str, name: &str) -> (r: String)
    ensures
        r@ == join_path(dir@, name@),
{
    let mut out = String::new();
    push_str(&mut out, dir);
    let n = dir.unicode_len();
    if n > 0 && dir.get_char(n - 1) != '/' {
        push_char(&mut out, '/');
    }
    push_str(&mut out, name);
    assert(out@ =~= join_path(dir@, name@));
    out
}

/// Where the configuration files are: `config.json` and `credentials.json`
/// in one directory. The program finds the directory (`BBN_TEST_CONFIG_DIR`,
/// or the XDG configuration home of `net.bouzuya.rust-sandbox.bbn`).
#[derive(Debug)]
pub struct ConfigRepository {
    config_dir: String,
}

/// `config.json`.
pub open spec fn config_json_name() -> Seq<char> {
    seq!['c', 'o', 'n', 'f', 'i', 'g', '.', 'j', 's', 'o', 'n']
}

/// `credentials.json`.
pub open spec fn credentials_json_name() -> Seq<char> {
    seq!['c', 'r', 'e', 'd', 'e', 'n', 't', 'i', 'a', 'l', 's', '.', 'j', 's', 'o', 'n']
}

impl ConfigRepository {
    pub closed spec fn dir(&self) -> Seq<char> {
        self.config_dir@
    }

    pub fn new(config_dir: String) -> (r: Self)
        ensures
            r.dir() == config_dir@,
    {
        Self { config_dir }
    }

    /// The configuration directory.
    pub fn config_dir(&self) -> (r: &str)
        ensures
            r@ == self.dir(),
    {
        self.config_dir.as_str()
    }

    /// The configuration file: `config.json` in the configuration directory.
    pub fn path(&self) -> (r: String)
        ensures
            r@ == join_path(self.dir(), config_json_name()),
    {
        self.config_file()
    }

    /// The credential file: `credentials.json` in the configuration directory.
    pub fn credential_file_path(&self) -> (r: String)
        ensures
            r@ == join_path(self.dir(), credentials_json_name()),
    {
        self.credential_file()
    }

    pub fn config_file(&self) -> (r: String)
        ensures
            r@ == join_path(self.dir(), config_json_name()),
    {
        let name = "config.json";
        proof {
            reveal_strlit("config.json");
        }
        join_path_x(self.config_dir.as_str(), name)
    }

    pub fn credential_file(&self) -> (r: String)
        ensures
            r@ == join_path(self.dir(), credentials_json_name()),
    {
        let name = "credentials.json";
        proof {
            reveal_strlit("credentials.json");
        }
        join_path_x(self.config_dir.as_str(), name)
    }
}

} // verus!
