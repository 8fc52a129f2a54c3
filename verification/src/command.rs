//! The arguments of the commands whose logic the library holds; the program
//! reads them from the command line.
use crate::date::Date;
use crate::date_like::DateLike;
use vstd::prelude::*;

verus! {

/// The subcommands of `bbn hatena-blog`.
#[derive(Clone, Debug)]
pub enum HatenaBlogSubcommand {
    /// Compares the entries, or the entry of a date, with Hatena Blog's.
    Diff { date: Option<String> },
    /// Downloads all entries, or the entry of a date, from Hatena Blog.
    Download { data_file_only: bool, date: Option<Date> },
    /// Lists the entries of Hatena Blog.
    List,
    /// Uploads the entry of a date, or each entry that differs, to Hatena Blog.
    Upload { date: Option<Date>, draft: bool, interactive: bool },
    /// Shows Hatena Blog's entry of a date.
    View { content: bool, date: Date, hatena_blog_id: String, meta: bool, web: bool },
}

/// The arguments of `bbn link-completion`.
#[derive(Clone, Debug)]
pub struct Params {
    pub date_like: DateLike,
}

} // verus!
