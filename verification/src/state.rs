//! The application state and the decisions behind each user action:
//! rescanning, activating a profile, and changing the cookie directory.
//!
//! Filesystem work happens outside this crate; each operation here takes
//! the outcome of that work (a directory listing, a copy result, an
//! existence check) as a plain value and is verified for every such
//! outcome.
use vstd::prelude::*;
use vstd::string::StringExecFns;
use crate::discovery::Profile;
use crate::discovery::listing_views;
use crate::discovery::scan;
use crate::discovery::scan_post;
use crate::paths::join_path;
use crate::paths::spec_join_path;

verus! {

/// Why a profile activation failed.
#[derive(Debug)]
pub enum ActivationError {
    /// The profile's cookie file could not be copied over the active
    /// cookies file; the payload describes the failure.
    CopyFailed(String),
}

/// Why a requested directory change was rejected.
#[derive(Debug, PartialEq, Eq, Structural)]
pub enum DirectoryError {
    /// The supplied path does not name an existing directory.
    InvalidDirectory,
}

/// The copy that activates a profile: `source` is the profile's cookie
/// file, `target` the fixed active-cookies path.
#[derive(Debug)]
pub struct CopyRequest {
    pub source: String,
    pub target: String,
}

/// The fixed filename of the active cookies file.
pub open spec fn active_cookies_name() -> Seq<char> {
    "cookies"@
}

pub open spec fn scan_error_message(dir: Seq<char>, detail: Seq<char>) -> Seq<char> {
    "Error scanning directory "@ + dir + ": "@ + detail
}

pub open spec fn no_profiles_message(dir: Seq<char>) -> Seq<char> {
    "No cookie files found in "@ + dir
        + ". Looking for files named 'cookies_*.txt' or 'cookies_*'."@
}

pub open spec fn switched_message(display_name: Seq<char>) -> Seq<char> {
    "✅ Switched to "@ + display_name + " profile"@
}

pub open spec fn copy_failed_message(source: Seq<char>, detail: Seq<char>) -> Seq<char> {
    "Failed to copy "@ + source + ": "@ + detail
}

pub open spec fn directory_changed_message() -> Seq<char> {
    "✅ Directory changed successfully"@
}

pub open spec fn invalid_directory_message() -> Seq<char> {
    "❌ Directory does not exist or is not a directory"@
}

fn build_scan_error_message(dir: &str, detail: &str) -> (r: String)
    ensures
        r@ == scan_error_message(dir@, detail@),
{
    let s = String::from_str("Error scanning directory ");
    let s = s.concat(dir);
    let s = s.concat(": ");
    let s = s.concat(detail);
    proof {
        assert(s@ =~= scan_error_message(dir@, detail@));
    }
    s
}

fn build_no_profiles_message(dir: &str) -> (r: String)
    ensures
        r@ == no_profiles_message(dir@),
{
    let s = String::from_str("No cookie files found in ");
    let s = s.concat(dir);
    let s = s.concat(". Looking for files named 'cookies_*.txt' or 'cookies_*'.");
    proof {
        assert(s@ =~= no_profiles_message(dir@));
    }
    s
}

fn build_switched_message(display_name: &str) -> (r: String)
    ensures
        r@ == switched_message(display_name@),
{
    let s = String::from_str("✅ Switched to ");
    let s = s.concat(display_name);
    let s = s.concat(" profile");
    proof {
        assert(s@ =~= switched_message(display_name@));
    }
    s
}

fn build_copy_failed_message(source: &str, detail: &str) -> (r: String)
    ensures
        r@ == copy_failed_message(source@, detail@),
{
    let s = String::from_str("Failed to copy ");
    let s = s.concat(source);
    let s = s.concat(": ");
    let s = s.concat(detail);
    proof {
        assert(s@ =~= copy_failed_message(source@, detail@));
    }
    s
}

/// The profile list an operation leaves behind, given the listing the
/// caller obtained: the scanned profiles when the directory could be
/// enumerated, and no profiles when it could not.
pub open spec fn profiles_for_listing(
    listing: Result<Vec<String>, String>,
    ps: Seq<Profile>,
) -> bool {
    match listing {
        Result::Ok(names) => scan_post(listing_views(names@), ps),
        Result::Err(_) => ps.len() == 0,
    }
}

/// The diagnostic a rescan leaves behind: the enumeration error, the
/// empty-directory notice, or nothing.
pub open spec fn diagnostic_for_listing(
    listing: Result<Vec<String>, String>,
    dir: Seq<char>,
    ps: Seq<Profile>,
    diag: Option<Seq<char>>,
) -> bool {
    match listing {
        Result::Ok(_) => {
            if ps.len() == 0 {
                diag == Option::Some(no_profiles_message(dir))
            } else {
                diag is None
            }
        },
        Result::Err(e) => diag == Option::Some(scan_error_message(dir, e@)),
    }
}

/// The state behind the presentation layer: the configured directory, the
/// profiles of its last scan, the current selection, and the current
/// status message.
pub struct AppState {
    cookie_directory: String,
    profiles: Vec<Profile>,
    selected_profile: Option<usize>,
    diagnostic: Option<String>,
}

impl AppState {
    /// The configured cookie directory.
    pub closed spec fn dir(&self) -> Seq<char> {
        self.cookie_directory@
    }

    /// The profiles of the last scan, in order.
    pub closed spec fn profiles_seq(&self) -> Seq<Profile> {
        self.profiles@
    }

    /// The current selection.
    pub closed spec fn selection(&self) -> Option<usize> {
        self.selected_profile
    }

    /// The current status message.
    pub closed spec fn diagnostic_view(&self) -> Option<Seq<char>> {
        match self.diagnostic {
            Option::Some(m) => Option::Some(m@),
            Option::None => Option::None,
        }
    }

    /// A selection, when present, indexes into the profile list.
    pub open spec fn wf(&self) -> bool {
        match self.selection() {
            Option::Some(i) => (i as int) < self.profiles_seq().len(),
            Option::None => true,
        }
    }

    /// Build the startup state for a directory: scan it once, with no
    /// selection.
    pub fn new(directory: String, listing: &Result<Vec<String>, String>) -> (s: AppState)
        ensures
            s.wf(),
            s.dir() == directory@,
            s.selection() is None,
            profiles_for_listing(*listing, s.profiles_seq()),
            diagnostic_for_listing(*listing, directory@, s.profiles_seq(), s.diagnostic_view()),
    {
        let mut s = AppState {
            cookie_directory: directory,
            profiles: Vec::new(),
            selected_profile: Option::None,
            diagnostic: Option::None,
        };
        s.refresh(listing);
        s
    }

    pub fn current_directory(&self) -> (r: &String)
        ensures
            r@ == self.dir(),
    {
        &self.cookie_directory
    }

    pub fn profiles(&self) -> (r: &Vec<Profile>)
        ensures
            r@ == self.profiles_seq(),
    {
        &self.profiles
    }

    pub fn selected_profile(&self) -> (r: Option<usize>)
        ensures
            r == self.selection(),
    {
        self.selected_profile
    }

    pub fn diagnostic(&self) -> (r: &Option<String>)
        ensures
            match r {
                Option::Some(m) => self.diagnostic_view() == Option::Some(m@),
                Option::None => self.diagnostic_view() is None,
            },
    {
        &self.diagnostic
    }

    /// Re-run discovery on the configured directory, from the listing the
    /// caller read there: the profile list is rebuilt wholesale, the
    /// selection cleared, and the diagnostic set from the outcome.
    pub fn refresh(&mut self, listing: &Result<Vec<String>, String>)
        ensures
            final(self).wf(),
            final(self).dir() == old(self).dir(),
            final(self).selection() is None,
            profiles_for_listing(*listing, final(self).profiles_seq()),
            diagnostic_for_listing(
                *listing,
                old(self).dir(),
                final(self).profiles_seq(),
                final(self).diagnostic_view(),
            ),
    {
        self.selected_profile = Option::None;
        match listing {
            Result::Ok(names) => {
                let ps = scan(names);
                let is_empty = ps.len() == 0;
                self.profiles = ps;
                if is_empty {
                    let msg = build_no_profiles_message(self.cookie_directory.as_str());
                    self.diagnostic = Option::Some(msg);
                } else {
                    self.diagnostic = Option::None;
                }
            },
            Result::Err(e) => {
                self.profiles = Vec::new();
                let msg = build_scan_error_message(self.cookie_directory.as_str(), e.as_str());
                self.diagnostic = Option::Some(msg);
            },
        }
    }

    /// The copy that would activate the profile at `index`: its cookie
    /// file copied over the active cookies file, both under the
    /// configured directory. Nothing is requested for an out-of-range
    /// index.
    pub fn activation_request(&self, index: usize) -> (r: Option<CopyRequest>)
        ensures
            match r {
                Option::Some(req) => {
                    &&& (index as int) < self.profiles_seq().len()
                    &&& req.source@ == spec_join_path(
                        self.dir(),
                        self.profiles_seq()[index as int].cookie_file@,
                    )
                    &&& req.target@ == spec_join_path(self.dir(), active_cookies_name())
                },
                Option::None => (index as int) >= self.profiles_seq().len(),
            },
    {
        if index < self.profiles.len() {
            let source = join_path(
                self.cookie_directory.as_str(),
                self.profiles[index].cookie_file.as_str(),
            );
            let target = join_path(self.cookie_directory.as_str(), "cookies");
            Option::Some(CopyRequest { source, target })
        } else {
            Option::None
        }
    }

    /// Record the outcome of an activation copy: on success the selection
    /// moves to the activated profile and the status message reports the
    /// switch; on failure the selection is left as it was and the error
    /// is both reported as the status message and returned. The directory
    /// and the profile list are untouched either way.
    pub fn apply_activation(&mut self, index: usize, outcome: Result<(), String>) -> (r: Result<
        (),
        ActivationError,
    >)
        requires
            old(self).wf(),
            (index as int) < old(self).profiles_seq().len(),
        ensures
            final(self).wf(),
            final(self).dir() == old(self).dir(),
            final(self).profiles_seq() == old(self).profiles_seq(),
            match outcome {
                Result::Ok(_) => {
                    &&& r is Ok
                    &&& final(self).selection() == Option::Some(index)
                    &&& final(self).diagnostic_view() == Option::Some(
                        switched_message(
                            old(self).profiles_seq()[index as int].display_name@,
                        ),
                    )
                },
                Result::Err(e) => {
                    &&& match r {
                        Result::Err(ActivationError::CopyFailed(m)) => m@ == e@,
                        _ => false,
                    }
                    &&& final(self).selection() == old(self).selection()
                    &&& final(self).diagnostic_view() == Option::Some(
                        copy_failed_message(
                            spec_join_path(
                                old(self).dir(),
                                old(self).profiles_seq()[index as int].cookie_file@,
                            ),
                            e@,
                        ),
                    )
                },
            },
    {
        match outcome {
            Result::Ok(_) => {
                let msg = build_switched_message(self.profiles[index].display_name.as_str());
                self.diagnostic = Option::Some(msg);
                self.selected_profile = Option::Some(index);
                Result::Ok(())
            },
            Result::Err(e) => {
                let source = join_path(
                    self.cookie_directory.as_str(),
                    self.profiles[index].cookie_file.as_str(),
                );
                let msg = build_copy_failed_message(source.as_str(), e.as_str());
                self.diagnostic = Option::Some(msg);
                Result::Err(ActivationError::CopyFailed(e))
            },
        }
    }

    /// Apply a validated directory change. `is_existing_dir` reports the
    /// caller's check that the expanded path names an existing directory.
    /// When it does, the directory is replaced, discovery re-run from the
    /// new listing, the selection cleared, and success reported; when it
    /// does not, the state is left untouched apart from the status
    /// message, and the change is rejected.
    pub fn apply_directory_change(
        &mut self,
        new_directory: &str,
        is_existing_dir: bool,
        listing: &Result<Vec<String>, String>,
    ) -> (r: Result<(), DirectoryError>)
        requires
            old(self).wf(),
        ensures
            final(self).wf(),
            is_existing_dir ==> {
                &&& r is Ok
                &&& final(self).dir() == new_directory@
                &&& final(self).selection() is None
                &&& profiles_for_listing(*listing, final(self).profiles_seq())
                &&& final(self).diagnostic_view() == Option::Some(directory_changed_message())
            },
            !is_existing_dir ==> {
                &&& r == Result::<(), DirectoryError>::Err(DirectoryError::InvalidDirectory)
                &&& final(self).dir() == old(self).dir()
                &&& final(self).profiles_seq() == old(self).profiles_seq()
                &&& final(self).selection() == old(self).selection()
                &&& final(self).diagnostic_view() == Option::Some(invalid_directory_message())
            },
    {
        if is_existing_dir {
            self.cookie_directory = String::from_str(new_directory);
            self.refresh(listing);
            let msg = String::from_str("✅ Directory changed successfully");
            proof {
                assert(msg@ =~= directory_changed_message());
            }
            self.diagnostic = Option::Some(msg);
            Result::Ok(())
        } else {
            let msg = String::from_str("❌ Directory does not exist or is not a directory");
            proof {
                assert(msg@ =~= invalid_directory_message());
            }
            self.diagnostic = Option::Some(msg);
            Result::Err(DirectoryError::InvalidDirectory)
        }
    }
}

} // verus!
