//! The extension registry: installed extensions and the built-in catalogue.
use vstd::prelude::*;
use std::path::PathBuf;

verus! {

/// An extension's manifest.
#[derive(Debug, Clone)]
pub struct ExtensionManifest {
    pub id: String,
    pub name: String,
    pub version: String,
    pub author: String,
    pub description: String,
    pub icon: Option<String>,
}

/// An extension's state.
#[derive(Debug, Clone, PartialEq)]
pub enum ExtensionState {
    Active,
    Disabled,
    Error(String),
}

/// A loaded extension.
#[derive(Debug)]
pub struct Extension {
    pub manifest: ExtensionManifest,
    pub state: ExtensionState,
    pub install_path: PathBuf,
}

/// The installed extensions and where they are stored.
pub struct ExtensionRegistry {
    pub installed: Vec<Extension>,
    pub store_path: PathBuf,
}

/// A manifest as plain values: id, name, version, author, description,
/// icon.
pub open spec fn manifest_view(m: ExtensionManifest) -> (Seq<char>, Seq<char>, Seq<char>, Seq<char>, Seq<char>, Option<Seq<char>>) {
    (
        m.id@,
        m.name@,
        m.version@,
        m.author@,
        m.description@,
        match m.icon {
            Some(i) => Some(i@),
            None => None,
        },
    )
}

fn manifest(id: &str, name: &str, description: &str) -> (r: ExtensionManifest)
    ensures
        manifest_view(r) == (id@, name@, "1.0.0"@, "Forge"@, description@, None::<Seq<char>>),
{
    ExtensionManifest {
        id: id.to_owned(),
        name: name.to_owned(),
        version: "1.0.0".to_owned(),
        author: "Forge".to_owned(),
        description: description.to_owned(),
        icon: None,
    }
}

impl ExtensionRegistry {
    /// The number of installed extensions.
    pub fn count(&self) -> (r: usize)
        ensures
            r == self.installed@.len(),
    {
        self.installed.len()
    }

    /// The built-in extensions that can be installed.
    pub fn available() -> (r: Vec<ExtensionManifest>)
        ensures
            r@.len() == 2,
            manifest_view(r@[0]) == (
                "forge-ext.word-count"@,
                "Word Count"@,
                "1.0.0"@,
                "Forge"@,
                "Displays word count in status bar"@,
                None::<Seq<char>>,
            ),
            manifest_view(r@[1]) == (
                "forge-ext.bracket-pair"@,
                "Bracket Pair Colorizer"@,
                "1.0.0"@,
                "Forge"@,
                "Colors matching brackets"@,
                None::<Seq<char>>,
            ),
    {
        let mut r: Vec<ExtensionManifest> = Vec::new();
        r.push(manifest("forge-ext.word-count", "Word Count", "Displays word count in status bar"));
        r.push(manifest("forge-ext.bracket-pair", "Bracket Pair Colorizer", "Colors matching brackets"));
        r
    }
}

} // verus!
