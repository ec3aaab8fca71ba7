//! Where the application keeps its files: a fixed directory below the user's
//! home, with one file for settings and one for the log. With no home
//! directory to build on, the names are empty.

use vstd::prelude::*;
use vstd::string::StringExecFns;

verus! {

/// Relies on `dirs::home_dir`: the user's home directory when the platform
/// knows one, here flattened to a string (non-UTF-8 path pieces become
/// replacement characters).
#[verifier::external_body]
fn home_dir_string() -> (r: Option<String>) {
    match dirs::home_dir() {
        Some(p) => Some(p.to_string_lossy().to_string()),
        None => None,
    }
}

/// The application's own directory below the user's home.
pub fn get_app_dir() -> (r: Option<String>)
    ensures
        r matches Some(p) ==> exists|h: Seq<char>| p@ == h + "/Library/com.68kilo.tab"@,
{
    match home_dir_string() {
        Some(home) => {
            let mut p = home;
            let ghost h = p@;
            p.append("/Library/com.68kilo.tab");
            proof {
                assert(p@ == h + "/Library/com.68kilo.tab"@);
            }
            Some(p)
        },
        None => None,
    }
}

/// The settings file inside the application directory; empty when there is
/// no home directory to place it under.
pub fn get_settings_file_name() -> (r: String)
    ensures
        (exists|d: Seq<char>| r@ == d + "/settings.json"@) || r@ == Seq::<char>::empty(),
{
    match get_app_dir() {
        Some(mut path) => {
            let ghost d = path@;
            path.append("/settings.json");
            proof {
                assert(path@ == d + "/settings.json"@);
            }
            path
        },
        None => String::new(),
    }
}

/// The log file inside the application directory; empty when there is no
/// home directory to place it under.
pub fn get_log_file_name() -> (r: String)
    ensures
        (exists|d: Seq<char>| r@ == d + "/debug.log"@) || r@ == Seq::<char>::empty(),
{
    match get_app_dir() {
        Some(mut path) => {
            let ghost d = path@;
            path.append("/debug.log");
            proof {
                assert(path@ == d + "/debug.log"@);
            }
            path
        },
        None => String::new(),
    }
}

} // verus!
