//! The extensions side panel: the installed extensions, enabling and
//! removing them by name.
use vstd::prelude::*;
use crate::text::text_eq;

verus! {

#[derive(Clone, Debug)]
pub struct ExtensionInfo {
    pub name: String,
    pub version: String,
    pub description: String,
    pub enabled: bool,
}

pub struct ExtensionsPanel {
    pub visible: bool,
    pub installed: Vec<ExtensionInfo>,
    pub search_query: String,
}

/// An extension as plain values: name, version, description, enabled.
pub open spec fn info_view(e: ExtensionInfo) -> (Seq<char>, Seq<char>, Seq<char>, bool) {
    (e.name@, e.version@, e.description@, e.enabled)
}

pub open spec fn infos_view(v: Seq<ExtensionInfo>) -> Seq<(Seq<char>, Seq<char>, Seq<char>, bool)> {
    v.map_values(|e: ExtensionInfo| info_view(e))
}

/// The first index at or after `from` of an extension called `name`.
pub open spec fn named_from(v: Seq<(Seq<char>, Seq<char>, Seq<char>, bool)>, name: Seq<char>, from: int) -> Option<int>
    decreases v.len() - from,
{
    if from < 0 || from >= v.len() {
        None
    } else if v[from].0 == name {
        Some(from)
    } else {
        named_from(v, name, from + 1)
    }
}

/// The extensions after flipping the first one called `name`.
pub open spec fn toggled_ext(v: Seq<(Seq<char>, Seq<char>, Seq<char>, bool)>, name: Seq<char>) -> Seq<
    (Seq<char>, Seq<char>, Seq<char>, bool),
> {
    match named_from(v, name, 0) {
        Some(i) => v.update(i, (v[i].0, v[i].1, v[i].2, !v[i].3)),
        None => v,
    }
}

/// The extensions after removing the first one called `name`.
pub open spec fn uninstalled(v: Seq<(Seq<char>, Seq<char>, Seq<char>, bool)>, name: Seq<char>) -> Seq<
    (Seq<char>, Seq<char>, Seq<char>, bool),
> {
    match named_from(v, name, 0) {
        Some(i) => v.remove(i),
        None => v,
    }
}

pub proof fn lemma_named_from(v: Seq<(Seq<char>, Seq<char>, Seq<char>, bool)>, name: Seq<char>, from: int)
    requires
        0 <= from,
    ensures
        named_from(v, name, from) matches Some(k) ==> from <= k < v.len() && v[k].0 == name
            && forall|j: int| from <= j < k ==> v[j].0 != name,
        named_from(v, name, from) is None ==> forall|j: int| from <= j < v.len() ==> v[j].0 != name,
    decreases v.len() - from,
{
    if from < v.len() && v[from].0 != name {
        lemma_named_from(v, name, from + 1);
    }
}

/// Where an extension called `name` is in `installed`, searching from `i`.
fn find_named(installed: &Vec<ExtensionInfo>, name: &str) -> (r: Option<usize>)
    ensures
        match r {
            Some(i) => named_from(infos_view(installed@), name@, 0) == Some(i as int),
            None => named_from(infos_view(installed@), name@, 0) is None,
        },
{
    let mut i: usize = 0;
    while i < installed.len()
        invariant
            i <= installed@.len(),
            named_from(infos_view(installed@), name@, 0) == named_from(
                infos_view(installed@),
                name@,
                i as int,
            ),
        decreases installed@.len() - i,
    {
        if text_eq(installed[i].name.as_str(), name) {
            return Some(i);
        }
        i = i + 1;
    }
    None
}

impl ExtensionsPanel {
    pub open spec fn view(&self) -> Seq<(Seq<char>, Seq<char>, Seq<char>, bool)> {
        infos_view(self.installed@)
    }

    /// A hidden panel listing the two bundled extensions.
    pub fn new() -> (r: Self)
        ensures
            !r.visible,
            r.search_query@.len() == 0,
            r.view() == seq![
                ("Rust Analyzer"@, "0.3.1500"@, "Rust language support"@, true),
                ("Prettier"@, "2.8.0"@, "Code formatter"@, true),
            ],
    {
        let mut installed: Vec<ExtensionInfo> = Vec::new();
        installed.push(
            ExtensionInfo {
                name: "Rust Analyzer".to_owned(),
                version: "0.3.1500".to_owned(),
                description: "Rust language support".to_owned(),
                enabled: true,
            },
        );
        installed.push(
            ExtensionInfo {
                name: "Prettier".to_owned(),
                version: "2.8.0".to_owned(),
                description: "Code formatter".to_owned(),
                enabled: true,
            },
        );
        let r = ExtensionsPanel { visible: false, installed, search_query: String::new() };
        assert(r.view() =~= seq![
            ("Rust Analyzer"@, "0.3.1500"@, "Rust language support"@, true),
            ("Prettier"@, "2.8.0"@, "Code formatter"@, true),
        ]);
        r
    }

    pub fn toggle(&mut self)
        ensures
            final(self).visible == !old(self).visible,
            final(self).view() == old(self).view(),
            final(self).search_query@ == old(self).search_query@,
    {
        self.visible = !self.visible;
    }

    pub fn set_search_query(&mut self, query: String)
        ensures
            final(self).search_query@ == query@,
            final(self).visible == old(self).visible,
            final(self).view() == old(self).view(),
    {
        self.search_query = query;
    }

    /// Enables or disables the first extension called `name`, if any.
    pub fn toggle_extension(&mut self, name: &str)
        ensures
            final(self).view() == toggled_ext(old(self).view(), name@),
            final(self).visible == old(self).visible,
            final(self).search_query@ == old(self).search_query@,
    {
        match find_named(&self.installed, name) {
            Some(i) => {
                proof {
                    lemma_named_from(self.view(), name@, 0);
                }
                let e = self.installed[i].enabled;
                self.installed[i].enabled = !e;
                assert(self.view() =~= toggled_ext(old(self).view(), name@));
            },
            None => {},
        }
    }

    /// Removes the first extension called `name`, if any.
    pub fn uninstall_extension(&mut self, name: &str)
        ensures
            final(self).view() == uninstalled(old(self).view(), name@),
            final(self).visible == old(self).visible,
            final(self).search_query@ == old(self).search_query@,
    {
        match find_named(&self.installed, name) {
            Some(i) => {
                proof {
                    lemma_named_from(self.view(), name@, 0);
                }
                self.installed.remove(i);
                assert(self.view() =~= uninstalled(old(self).view(), name@));
            },
            None => {},
        }
    }
}

/// Toggling the same extension twice restores every extension as it was.
pub proof fn law_toggle_extension_twice(v: Seq<(Seq<char>, Seq<char>, Seq<char>, bool)>, name: Seq<char>)
    ensures
        toggled_ext(toggled_ext(v, name), name) == v,
{
    lemma_named_from(v, name, 0);
    match named_from(v, name, 0) {
        Some(i) => {
            let w = toggled_ext(v, name);
            lemma_named_from(w, name, 0);
            assert(w[i].0 == name);
            if named_from(w, name, 0) != Some(i) {
                let k = named_from(w, name, 0).unwrap();
                assert(w[k] == v[k]);
            }
            assert(toggled_ext(w, name) =~= v);
        },
        None => {},
    }
}

/// Removing an extension takes away exactly one entry when one has that
/// name, and nothing otherwise; no other entry changes order.
pub proof fn law_uninstall_removes_one(v: Seq<(Seq<char>, Seq<char>, Seq<char>, bool)>, name: Seq<char>)
    ensures
        (exists|j: int| 0 <= j < v.len() && v[j].0 == name) ==> uninstalled(v, name).len() == v.len() - 1,
        !(exists|j: int| 0 <= j < v.len() && v[j].0 == name) ==> uninstalled(v, name) == v,
{
    lemma_named_from(v, name, 0);
}

} // verus!
