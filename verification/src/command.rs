use vstd::prelude::*;

verus! {

/// The one operation a process run performs.
pub enum Opt {
    /// Add a new subscription to the feed list.
    Add { title: String, html_link: String, xml_link: String },
    /// Remove a subscription by its feed address.
    Remove { xml_link: String },
    /// Make sure the default feed list file exists.
    Auto(Auto),
    /// Copy the feed list file to a target path.
    CopyToFile { target_path: String },
    /// Commit the feed list file and push it to the remote.
    Upload { message: Option<String> },
}

/// The bootstrap operation, with an optional explicit file path.
pub struct Auto {
    pub config_path: Option<String>,
}

/// What the bootstrap run decides once it knows whether the default file
/// exists.
#[derive(Clone, Copy, Debug, PartialEq, Eq, Structural)]
pub enum PathPlan {
    /// An explicit path was given: use it as it is.
    UseExplicit,
    /// No explicit path, and the default file exists: use it.
    UseExisting,
    /// No explicit path and no default file: create it from the seed.
    CreateDefault,
}

impl Auto {
    /// The decision inside the bootstrap run: an explicit path wins;
    /// otherwise the default file is used, and created first when absent.
    pub fn plan(&self, default_exists: bool) -> (r: PathPlan)
        ensures
            r == (if self.config_path matches Some(_) {
                PathPlan::UseExplicit
            } else if default_exists {
                PathPlan::UseExisting
            } else {
                PathPlan::CreateDefault
            }),
    {
        match &self.config_path {
            Some(_) => PathPlan::UseExplicit,
            None => if default_exists {
                PathPlan::UseExisting
            } else {
                PathPlan::CreateDefault
            },
        }
    }
}

} // verus!
