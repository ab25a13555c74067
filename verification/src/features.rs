//! Features: advisory tags that a program records to say what it configured.

use vstd::prelude::*;

verus! {

/// A feature as plain values.
pub ghost struct FeatureView {
    pub name: Seq<char>,
    pub version: Option<Seq<char>>,
}

/// The text of an optional string.
pub open spec fn optional_text(o: Option<String>) -> Option<Seq<char>> {
    match o {
        Some(s) => Some(s@),
        None => None,
    }
}

/// A name with an optional version.
#[derive(Debug, PartialEq, Eq, Hash, Clone)]
pub struct Feature {
    name: String,
    version: Option<String>,
}

impl View for Feature {
    type V = FeatureView;

    closed spec fn view(&self) -> FeatureView {
        FeatureView { name: self.name@, version: optional_text(self.version) }
    }
}

/// How a feature is shown: its name, then a colon and its version where it has one.
pub open spec fn feature_text(f: FeatureView) -> Seq<char> {
    match f.version {
        Some(v) => f.name + seq![':'] + v,
        None => f.name,
    }
}

impl Feature {
    /// A feature with the given name and version.
    pub fn new(name: String, version: Option<String>) -> (f: Feature)
        ensures
            f@ == (FeatureView { name: name@, version: optional_text(version) }),
    {
        Feature { name, version }
    }

    /// The name of the feature.
    pub fn name(&self) -> (r: &str)
        ensures
            r@ == self@.name,
    {
        self.name.as_str()
    }

    /// The version of the feature, where it has one.
    pub fn version(&self) -> (r: Option<&str>)
        ensures
            match r {
                Some(v) => self@.version == Some(v@),
                None => self@.version is None,
            },
    {
        match &self.version {
            Some(v) => Some(v.as_str()),
            None => None,
        }
    }

    /// The feature as it is shown to the user.
    pub fn to_string(&self) -> (r: String)
        ensures
            r@ == feature_text(self@),
    {
        let mut out = crate::text::chars_of(self.name.as_str());
        match &self.version {
            Some(v) => {
                out.push(':');
                let rest = crate::text::chars_of(v.as_str());
                crate::text::push_all(&mut out, &rest);
            },
            None => {},
        }
        crate::text::string_of(&out)
    }

    /// A copy of the feature.
    pub fn duplicate(&self) -> (f: Feature)
        ensures
            f@ == self@,
    {
        let version = match &self.version {
            Some(v) => Some(v.clone()),
            None => None,
        };
        Feature { name: self.name.clone(), version }
    }

    /// Whether two features have the same name and the same version.
    pub fn same_as(&self, other: &Feature) -> (r: bool)
        ensures
            r == (self@ == other@),
    {
        if self.name != other.name {
            return false;
        }
        match &self.version {
            Some(a) => match &other.version {
                Some(b) => crate::text::text_eq(a.as_str(), b.as_str()),
                None => false,
            },
            None => other.version.is_none(),
        }
    }
}

} // verus!
