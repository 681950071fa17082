//! The record for a single discovered build target.

use vstd::prelude::*;

verus! {

/// Ghost model of a [`Target`]: the views of its fields.
#[verifier::ext_equal]
pub ghost struct TargetV {
    pub name: Seq<char>,
    pub default: bool,
    pub output: Option<Seq<Seq<char>>>,
}

/// One build target discovered in the scanned file.
#[derive(Debug)]
pub struct Target {
    /// Name of the target, as declared before `:`.
    pub name: String,
    /// Whether this is the default (first) target.
    pub default: bool,
    /// Output paths associated with the target, once one is detected.
    pub output: Option<Vec<String>>,
}

impl View for Target {
    type V = TargetV;

    open spec fn view(&self) -> TargetV {
        TargetV {
            name: self.name@,
            default: self.default,
            output: match self.output {
                Option::None => Option::None,
                Option::Some(paths) => Option::Some(paths.deep_view()),
            },
        }
    }
}

impl Target {
    /// A fresh target of the given name: not the default, no outputs yet.
    pub fn new(name: String) -> (t: Target)
        ensures
            t@.name == name@,
            t@.default == false,
            t@.output is None,
    {
        Target { name, default: false, output: Option::None }
    }
}

impl Clone for Target {
    /// A clone carries the same name, default flag and outputs.
    fn clone(&self) -> (res: Self)
        ensures
            res@ == self@,
    {
        let output: Option<Vec<String>> = match &self.output {
            Option::None => Option::None,
            Option::Some(paths) => {
                let c = paths.clone();
                proof {
                    assert(c.deep_view() =~= paths.deep_view());
                }
                Option::Some(c)
            },
        };
        let res = Target { name: self.name.clone(), default: self.default, output };
        proof {
            assert(res@ =~= self@);
        }
        res
    }
}

/// Two targets are equal when their names match, whatever their other fields.
impl PartialEq for Target {
    fn eq(&self, other: &Target) -> (r: bool) {
        self.name == other.name
    }
}

impl vstd::std_specs::cmp::PartialEqSpecImpl for Target {
    open spec fn obeys_eq_spec() -> bool {
        true
    }

    open spec fn eq_spec(&self, other: &Target) -> bool {
        self.name@ == other.name@
    }
}

/// The model of a sequence of targets.
pub open spec fn targets_view(s: Seq<Target>) -> Seq<TargetV> {
    s.map_values(|t: Target| t@)
}

} // verus!
