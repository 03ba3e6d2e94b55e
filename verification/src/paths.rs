//! Where Relay keeps its files, under the user's home directory. Reading the
//! home directory from the environment belongs to the platform layer.

use vstd::prelude::*;

use crate::text::{chars_of, concat};

verus! {

/// `base` extended by the relative path `part`, as `PathBuf::push` does it: a
/// separator goes between them unless `base` is empty or already ends in one.
pub open spec fn joined(base: Seq<char>, part: Seq<char>) -> Seq<char> {
    if base.len() == 0 || base.last() == '/' {
        base + part
    } else {
        base + seq!['/'] + part
    }
}

pub fn join(base: &str, part: &str) -> (r: String)
    ensures
        r@ == joined(base@, part@),
{
    let b = chars_of(base);
    if b.len() == 0 || b[b.len() - 1] == '/' {
        concat(base, part)
    } else {
        let with_sep = concat(base, "/");
        let r = concat(with_sep.as_str(), part);
        proof {
            reveal_strlit("/");
        }
        assert(r@ =~= joined(base@, part@));
        r
    }
}

pub open spec fn spec_data_dir(home: Seq<char>) -> Seq<char> {
    joined(joined(joined(home, "Library"@), "Application Support"@), "Relay"@)
}

/// `~/Library/Application Support/Relay`.
pub fn data_dir(home: &str) -> (r: String)
    ensures
        r@ == spec_data_dir(home@),
{
    let a = join(home, "Library");
    let b = join(a.as_str(), "Application Support");
    join(b.as_str(), "Relay")
}

/// The configuration file, which is the single source of truth.
pub fn config_path(home: &str) -> (r: String)
    ensures
        r@ == joined(spec_data_dir(home@), "config.json"@),
{
    join(data_dir(home).as_str(), "config.json")
}

/// The unix socket the command line talks to.
pub fn sock_path(home: &str) -> (r: String)
    ensures
        r@ == joined(spec_data_dir(home@), "relay.sock"@),
{
    join(data_dir(home).as_str(), "relay.sock")
}

/// The file whose lock makes sure only one resident app runs.
pub fn lock_path(home: &str) -> (r: String)
    ensures
        r@ == joined(spec_data_dir(home@), "relay.lock"@),
{
    join(data_dir(home).as_str(), "relay.lock")
}

/// `~/Library/Logs/Relay`.
pub fn log_dir(home: &str) -> (r: String)
    ensures
        r@ == joined(joined(joined(home@, "Library"@), "Logs"@), "Relay"@),
{
    let a = join(home, "Library");
    let b = join(a.as_str(), "Logs");
    join(b.as_str(), "Relay")
}

// ---------------------------------------------------------------------------
// Reading a path, through `std::path`.
// ---------------------------------------------------------------------------

/// What `Path::parent` gives for the path `p`.
pub uninterp spec fn path_parent(p: Seq<char>) -> Option<Seq<char>>;

/// What `Path::file_name` gives for the path `p`.
pub uninterp spec fn path_file_name(p: Seq<char>) -> Option<Seq<char>>;

/// Where the last `.` of `name` before position `end` stands, if there is one.
pub open spec fn last_dot_before(name: Seq<char>, end: int) -> Option<int>
    decreases end,
{
    if end <= 0 || end > name.len() {
        None
    } else if name[end - 1] == '.' {
        Some(end - 1)
    } else {
        last_dot_before(name, end - 1)
    }
}

/// The extension `std::path::Path::extension` documents for a path whose
/// file name is `file_name`: nothing without a file name, without a `.` in
/// it, or when its only `.` is its first character; otherwise what follows
/// its last `.`.
pub open spec fn extension_in(file_name: Option<Seq<char>>) -> Option<Seq<char>> {
    match file_name {
        None => None,
        Some(name) => match last_dot_before(name, name.len() as int) {
            Some(i) => if i == 0 {
                None
            } else {
                Some(name.subrange(i + 1, name.len() as int))
            },
            None => None,
        },
    }
}

/// The text an optional string holds.
pub open spec fn text_of(o: Option<String>) -> Option<Seq<char>> {
    match o {
        Some(s) => Some(s@),
        None => None,
    }
}

/// `Path::parent`: the path without its last component, if it has one.
#[verifier::external_body]
fn parent_of(p: &str) -> (r: Option<String>)
    ensures
        text_of(r) == path_parent(p@),
{
    match std::path::Path::new(p).parent() {
        Some(q) => q.to_str().map(|q| q.to_owned()),
        None => None,
    }
}

/// `Path::file_name`: the last component, unless it is `..` or there is none.
#[verifier::external_body]
pub(crate) fn file_name_of(p: &str) -> (r: Option<String>)
    ensures
        text_of(r) == path_file_name(p@),
{
    match std::path::Path::new(p).file_name() {
        Some(q) => q.to_str().map(|q| q.to_owned()),
        None => None,
    }
}

/// `Path::extension`: what follows the last `.` of the file name, if any,
/// as its documentation states it over `Path::file_name`.
#[verifier::external_body]
fn extension_of(p: &str) -> (r: Option<String>)
    ensures
        text_of(r) == extension_in(path_file_name(p@)),
{
    match std::path::Path::new(p).extension() {
        Some(q) => q.to_str().map(|q| q.to_owned()),
        None => None,
    }
}

/// The app bundle an executable lives in: `/Applications/Relay.app` for
/// `/Applications/Relay.app/Contents/MacOS/relay`, and nothing for a binary
/// that is not inside `<name>.app/Contents/MacOS`.
pub open spec fn spec_app_bundle_of(exe: Seq<char>) -> Option<Seq<char>> {
    match path_parent(exe) {
        Some(macos) => if path_file_name(macos) == Some("MacOS"@) {
            match path_parent(macos) {
                Some(contents) => if path_file_name(contents) == Some("Contents"@) {
                    match path_parent(contents) {
                        Some(bundle) => if extension_in(path_file_name(bundle)) == Some("app"@) {
                            Some(bundle)
                        } else {
                            None
                        },
                        None => None,
                    }
                } else {
                    None
                },
                None => None,
            }
        } else {
            None
        },
        None => None,
    }
}

fn names(o: &Option<String>, text: &str) -> (r: bool)
    ensures
        r == (text_of(*o) == Some(text@)),
{
    match o {
        Some(s) => crate::text::str_eq(s.as_str(), text),
        None => false,
    }
}

pub fn app_bundle_of(exe: &str) -> (r: Option<String>)
    ensures
        text_of(r) == spec_app_bundle_of(exe@),
{
    let macos = match parent_of(exe) {
        Some(m) => m,
        None => return None,
    };
    if !names(&file_name_of(macos.as_str()), "MacOS") {
        return None;
    }
    let contents = match parent_of(macos.as_str()) {
        Some(c) => c,
        None => return None,
    };
    if !names(&file_name_of(contents.as_str()), "Contents") {
        return None;
    }
    let bundle = match parent_of(contents.as_str()) {
        Some(b) => b,
        None => return None,
    };
    if names(&extension_of(bundle.as_str()), "app") {
        Some(bundle)
    } else {
        None
    }
}

} // verus!
