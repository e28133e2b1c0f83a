//! The interface to the external downloader: what it reports of a list, and
//! the argument lists this library hands it.
use vstd::prelude::*;

use crate::config::UseCookiesFrom;
use crate::dl::{cookie_args, str_views};

verus! {

/// One item of a list, as the downloader reports it.
#[derive(Debug)]
pub struct RawVideoInfos {
    /// The source key the downloader gives the item.
    pub ie_key: String,
    pub title: String,
    pub url: String,
}

/// A list's items, in list order.
#[derive(Debug)]
pub struct RawPlaylist {
    pub entries: Vec<RawVideoInfos>,
}

/// Appends the arguments that point the downloader at a cookie source.
pub fn append_cookies_args(args: &mut Vec<String>, cookies: &UseCookiesFrom)
    ensures
        str_views(final(args)@) == str_views(old(args)@) + cookie_args(Some(*cookies)),
{
    let ghost start = str_views(args@);
    match cookies {
        UseCookiesFrom::Browser(browser) => {
            args.push("--cookies-from-browser".to_owned());
            args.push(browser.clone());
        },
        UseCookiesFrom::File(file) => {
            args.push("--cookies".to_owned());
            args.push(file.clone());
        },
    }
    assert(str_views(args@) =~= start + cookie_args(Some(*cookies)));
}

/// The arguments that ask for a list's items as flat JSON.
pub fn fetch_playlist_args(url: &str, cookies: Option<&UseCookiesFrom>) -> (r: Vec<String>)
    ensures
        str_views(r@) == seq!["-J"@, "--flat-playlist"@, url@] + match cookies {
            Some(c) => cookie_args(Some(*c)),
            None => seq![],
        },
{
    let mut args: Vec<String> = Vec::new();
    args.push("-J".to_owned());
    args.push("--flat-playlist".to_owned());
    args.push(url.to_owned());
    assert(str_views(args@) =~= seq!["-J"@, "--flat-playlist"@, url@]);
    match cookies {
        Some(c) => append_cookies_args(&mut args, c),
        None => {},
    }
    args
}

/// The arguments that resolve an item's direct URL without fetching it,
/// which succeeds exactly when the item is available.
pub fn availability_args(url: &str) -> (r: Vec<String>)
    ensures
        str_views(r@) == seq!["--get-url"@, url@],
{
    let mut args: Vec<String> = Vec::new();
    args.push("--get-url".to_owned());
    args.push(url.to_owned());
    assert(str_views(args@) =~= seq!["--get-url"@, url@]);
    args
}

} // verus!
