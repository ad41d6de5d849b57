//! Installation profiles: named install roots. The two stock profiles,
//! "personal" and "global", carry the platform's per-user and per-system
//! install paths, which the surrounding program supplies; loading and
//! writing the configuration file is likewise the surrounding program's
//! work.

use vstd::prelude::*;

verus! {

/// One installation profile: where its installs are rooted.
#[derive(Debug, Clone, PartialEq, Eq)]
pub struct Profile {
    pub default_install_path: String,
}

/// The named profiles, in order; names are unique by construction of
/// `Config::new` and lookup takes the first match.
#[derive(Debug, Clone, PartialEq, Eq)]
pub struct Config {
    pub profiles: Vec<(String, Profile)>,
}

impl Config {
    /// The stock configuration: a "personal" profile rooted at the
    /// per-user install path and a "global" one at the per-system path.
    pub fn new(personal_path: String, global_path: String) -> (r: Self)
        ensures
            r.profiles@.len() == 2,
            r.profiles@[0].0@ == "personal"@,
            r.profiles@[0].1.default_install_path@ == personal_path@,
            r.profiles@[1].0@ == "global"@,
            r.profiles@[1].1.default_install_path@ == global_path@,
    {
        let mut profiles: Vec<(String, Profile)> = Vec::with_capacity(2);
        let personal_name = "personal".to_owned();
        profiles.push((personal_name, Profile { default_install_path: personal_path }));
        let global_name = "global".to_owned();
        profiles.push((global_name, Profile { default_install_path: global_path }));
        Config { profiles }
    }

    /// The first profile under the given name, or nothing when no profile
    /// carries it.
    pub fn profile(&self, name: &String) -> (r: Option<&Profile>)
        ensures
            r matches Some(p) ==> exists|i: int|
                0 <= i < self.profiles@.len() && (#[trigger] self.profiles@[i]).0@ == name@ && p
                    == self.profiles@[i].1 && (forall|j: int|
                    0 <= j < i ==> (#[trigger] self.profiles@[j]).0@ != name@),
            r is None ==> forall|i: int|
                0 <= i < self.profiles@.len() ==> (#[trigger] self.profiles@[i]).0@ != name@,
    {
        let mut i: usize = 0;
        while i < self.profiles.len()
            invariant
                0 <= i <= self.profiles@.len(),
                forall|j: int| 0 <= j < i ==> (#[trigger] self.profiles@[j]).0@ != name@,
            decreases self.profiles@.len() - i,
        {
            if self.profiles[i].0 == *name {
                return Some(&self.profiles[i].1);
            }
            i = i + 1;
        }
        None
    }
}

} // verus!
