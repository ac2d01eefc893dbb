//! Plugin identity: the descriptor parsed from a bundle's metadata script, and
//! the plugin value that pairs a descriptor with the bundle's location.

use vstd::prelude::*;

verus! {

/// The mathematical content of a descriptor: each field as a character
/// sequence.
pub struct PluginDetailsView {
    pub id: Seq<char>,
    pub extensions: Seq<Seq<char>>,
    pub version: Seq<char>,
    pub author: Seq<char>,
    pub category: Seq<char>,
}

/// A plugin's identity and applicability, parsed once from its metadata
/// script. `id` is globally unique and doubles as the plugin's section key in
/// the project configuration; `extensions` are the file extensions the plugin
/// claims; `category` is free-form and not used for control flow.
pub struct PluginDetails {
    pub id: String,
    pub extensions: Vec<String>,
    pub version: String,
    pub author: String,
    pub category: String,
}

impl View for PluginDetails {
    type V = PluginDetailsView;

    open spec fn view(&self) -> PluginDetailsView {
        PluginDetailsView {
            id: self.id@,
            extensions: self.extensions@.map(|i: int, e: String| e@),
            version: self.version@,
            author: self.author@,
            category: self.category@,
        }
    }
}

/// The mathematical content of a plugin: its descriptor and its location.
pub struct PluginView {
    pub details: PluginDetailsView,
    pub path: Seq<char>,
}

/// A discovered plugin: its descriptor plus the filesystem location of its
/// script bundle. Immutable after discovery.
pub struct Plugin {
    pub details: PluginDetails,
    pub path: String,
}

impl View for Plugin {
    type V = PluginView;

    open spec fn view(&self) -> PluginView {
        PluginView { details: self.details@, path: self.path@ }
    }
}

fn clone_strings(v: &Vec<String>) -> (r: Vec<String>)
    ensures
        r@ == v@,
{
    let mut r: Vec<String> = Vec::new();
    let mut i: usize = 0;
    while i < v.len()
        invariant
            i <= v.len(),
            r@ == v@.take(i as int),
        decreases v.len() - i,
    {
        r.push(v[i].clone());
        proof {
            assert(v@.take(i + 1 as int) =~= v@.take(i as int).push(v@[i as int]));
        }
        i = i + 1;
    }
    proof {
        assert(v@.take(v.len() as int) =~= v@);
    }
    r
}

impl Clone for PluginDetails {
    /// A clone carries the same descriptor content.
    fn clone(&self) -> (r: Self)
        ensures
            r@ == self@,
    {
        PluginDetails {
            id: self.id.clone(),
            extensions: clone_strings(&self.extensions),
            version: self.version.clone(),
            author: self.author.clone(),
            category: self.category.clone(),
        }
    }
}

impl Clone for Plugin {
    /// A clone carries the same descriptor content and location.
    fn clone(&self) -> (r: Self)
        ensures
            r@ == self@,
    {
        Plugin { details: self.details.clone(), path: self.path.clone() }
    }
}

} // verus!
