//! What a plugin's manifest declares.

use vstd::prelude::*;
use vstd::string::*;
use crate::error::Error;
use crate::text::{contains_char, list_contains, names_of};

verus! {

/// The metadata of a plugin, as its manifest declares it.
#[derive(Debug, Clone)]
pub struct PluginMetadata {
    /// The name, unique among the loaded plugins.
    pub name: String,
    /// The version.
    pub version: String,
    /// The author.
    pub author: String,
    /// A description.
    pub description: Option<String>,
    /// The function of the module at which the plugin starts.
    pub entry_point: Option<String>,
    /// The plugins that this one depends on.
    pub dependencies: Option<Vec<String>>,
    /// The permissions that this plugin requires.
    pub permissions: Option<Vec<String>>,
    /// The version of the host interface that the plugin was built against.
    pub abi_version: String,
    /// A category.
    pub category: Option<String>,
    /// Tags.
    pub tags: Option<Vec<String>>,
    /// A website.
    pub website: Option<String>,
    /// A license.
    pub license: Option<String>,
    /// The oldest host version that the plugin runs on.
    pub min_host_version: Option<String>,
}

/// Whether `r` is the refusal of a manifest with the message `text`.
pub open spec fn is_invalid_manifest(r: Result<(), Error>, text: Seq<char>) -> bool {
    r matches Err(Error::InvalidManifest(m)) && m@ == text
}

/// Whether `list` is given and holds `name`.
pub open spec fn lists(list: Option<Vec<String>>, name: Seq<char>) -> bool {
    match list {
        Some(v) => names_of(v@).contains(name),
        None => false,
    }
}

fn option_lists(list: &Option<Vec<String>>, name: &str) -> (r: bool)
    ensures
        r == lists(*list, name@),
{
    match list {
        Some(v) => list_contains(v.as_slice(), name),
        None => false,
    }
}

impl Default for PluginMetadata {
    fn default() -> (r: Self)
        ensures
            r.name@.len() == 0,
            r.version@.len() == 0,
            r.author@.len() == 0,
            r.abi_version@ == "1.0.0"@,
            r.description is None,
            r.entry_point is None,
            r.dependencies is None,
            r.permissions is None,
            r.category is None,
            r.tags is None,
            r.website is None,
            r.license is None,
            r.min_host_version is None,
    {
        PluginMetadata {
            name: String::new(),
            version: String::new(),
            author: String::new(),
            description: None,
            entry_point: None,
            dependencies: None,
            permissions: None,
            abi_version: String::from_str("1.0.0"),
            category: None,
            tags: None,
            website: None,
            license: None,
            min_host_version: None,
        }
    }
}

impl PluginMetadata {
    /// What `validate` returns: the first of the five checks that fails, in
    /// the order name, version, author, interface version, its format.
    pub open spec fn validation(self, r: Result<(), Error>) -> bool {
        if self.name@.len() == 0 {
            is_invalid_manifest(r, "Plugin name cannot be empty"@)
        } else if self.version@.len() == 0 {
            is_invalid_manifest(r, "Plugin version cannot be empty"@)
        } else if self.author@.len() == 0 {
            is_invalid_manifest(r, "Plugin author cannot be empty"@)
        } else if self.abi_version@.len() == 0 {
            is_invalid_manifest(r, "ABI version cannot be empty"@)
        } else if !self.abi_version@.contains('.') {
            is_invalid_manifest(r, "ABI version must be in semver format (e.g., 1.0.0)"@)
        } else {
            r is Ok
        }
    }

    /// Whether the metadata is valid: name, version, author and interface
    /// version are not empty, and the interface version holds a dot.
    pub open spec fn is_valid(self) -> bool {
        &&& self.name@.len() > 0
        &&& self.version@.len() > 0
        &&& self.author@.len() > 0
        &&& self.abi_version@.len() > 0
        &&& self.abi_version@.contains('.')
    }

    /// Accepts valid metadata and refuses the rest, saying what is wrong.
    pub fn validate(&self) -> (r: Result<(), Error>)
        ensures
            self.validation(r),
            r is Ok <==> self.is_valid(),
    {
        if self.name.as_str().is_empty() {
            return Err(Error::InvalidManifest(String::from_str("Plugin name cannot be empty")));
        }
        if self.version.as_str().is_empty() {
            return Err(Error::InvalidManifest(String::from_str("Plugin version cannot be empty")));
        }
        if self.author.as_str().is_empty() {
            return Err(Error::InvalidManifest(String::from_str("Plugin author cannot be empty")));
        }
        if self.abi_version.as_str().is_empty() {
            return Err(Error::InvalidManifest(String::from_str("ABI version cannot be empty")));
        }
        if !contains_char(self.abi_version.as_str(), '.') {
            return Err(
                Error::InvalidManifest(
                    String::from_str("ABI version must be in semver format (e.g., 1.0.0)"),
                ),
            );
        }
        Ok(())
    }

    /// The name.
    pub fn name(&self) -> (r: &str)
        ensures
            r@ == self.name@,
    {
        self.name.as_str()
    }

    /// The version.
    pub fn version(&self) -> (r: &str)
        ensures
            r@ == self.version@,
    {
        self.version.as_str()
    }

    /// The author.
    pub fn author(&self) -> (r: &str)
        ensures
            r@ == self.author@,
    {
        self.author.as_str()
    }

    /// The description, if there is one.
    pub fn description(&self) -> (r: Option<&str>)
        ensures
            match r {
                Some(d) => self.description matches Some(s) && s@ == d@,
                None => self.description is None,
            },
    {
        match &self.description {
            Some(s) => Some(s.as_str()),
            None => None,
        }
    }

    /// The dependencies, if any are declared.
    pub fn dependencies(&self) -> (r: Option<&Vec<String>>)
        ensures
            match r {
                Some(d) => self.dependencies == Some(*d),
                None => self.dependencies is None,
            },
    {
        self.dependencies.as_ref()
    }

    /// The permissions, if any are declared.
    pub fn permissions(&self) -> (r: Option<&Vec<String>>)
        ensures
            match r {
                Some(d) => self.permissions == Some(*d),
                None => self.permissions is None,
            },
    {
        self.permissions.as_ref()
    }

    /// The interface version.
    pub fn abi_version(&self) -> (r: &str)
        ensures
            r@ == self.abi_version@,
    {
        self.abi_version.as_str()
    }

    /// The category, if there is one.
    pub fn category(&self) -> (r: Option<&str>)
        ensures
            match r {
                Some(d) => self.category matches Some(s) && s@ == d@,
                None => self.category is None,
            },
    {
        match &self.category {
            Some(s) => Some(s.as_str()),
            None => None,
        }
    }

    /// The tags, if any are declared.
    pub fn tags(&self) -> (r: Option<&Vec<String>>)
        ensures
            match r {
                Some(d) => self.tags == Some(*d),
                None => self.tags is None,
            },
    {
        self.tags.as_ref()
    }

    /// Whether the plugin has the tag `tag`.
    pub fn has_tag(&self, tag: &str) -> (r: bool)
        ensures
            r == lists(self.tags, tag@),
    {
        option_lists(&self.tags, tag)
    }

    /// Whether the plugin requires the permission `permission`.
    pub fn requires_permission(&self, permission: &str) -> (r: bool)
        ensures
            r == lists(self.permissions, permission@),
    {
        option_lists(&self.permissions, permission)
    }

    /// Whether the plugin declares `plugin_name` as a dependency.
    pub fn depends_on(&self, plugin_name: &str) -> (r: bool)
        ensures
            r == lists(self.dependencies, plugin_name@),
    {
        option_lists(&self.dependencies, plugin_name)
    }
}

} // verus!
