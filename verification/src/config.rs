//! The configuration of a plugin: a flat map from keys to values.

use vstd::prelude::*;
use vstd::string::*;
use crate::text::{names_of, str_eq};

verus! {

/// `toml::Value`, one configuration value. Nothing is known of what a value holds.
#[verifier::external_type_specification]
#[verifier::external_body]
pub struct ExTomlValue(toml::Value);

/// The configuration of a plugin.
#[derive(Debug)]
pub struct PluginConfig {
    /// The values by key, in the order in which the keys were first set.
    pub values: Vec<(String, toml::Value)>,
    /// The file that the configuration was read from, if any.
    pub path: Option<String>,
}

/// The keys of `entries`, in order.
pub open spec fn keys_of(entries: Seq<(String, toml::Value)>) -> Seq<Seq<char>> {
    entries.map_values(|e: (String, toml::Value)| e.0@)
}

impl Default for PluginConfig {
    fn default() -> (r: Self)
        ensures
            r.values@.len() == 0,
            r.path is None,
    {
        PluginConfig { values: Vec::new(), path: None }
    }
}

impl PluginConfig {
    /// No key occurs twice.
    pub open spec fn wf(&self) -> bool {
        forall|i: int, j: int|
            0 <= i < j < self.values@.len() ==> (#[trigger] self.values@[i]).0@ != (
            #[trigger] self.values@[j]).0@
    }

    /// The place of `key`, if it is set.
    pub open spec fn position(&self, key: Seq<char>) -> Option<int> {
        if exists|i: int| 0 <= i < self.values@.len() && (#[trigger] self.values@[i]).0@ == key {
            Some(choose|i: int| 0 <= i < self.values@.len() && (#[trigger] self.values@[i]).0@ == key)
        } else {
            None
        }
    }

    /// An empty configuration that belongs to no file.
    pub fn new() -> (r: Self)
        ensures
            r.values@.len() == 0,
            r.path is None,
            r.wf(),
    {
        PluginConfig { values: Vec::new(), path: None }
    }

    fn find(&self, key: &str) -> (r: Option<usize>)
        requires
            self.wf(),
        ensures
            match r {
                Some(i) => self.position(key@) == Some(i as int) && i < self.values@.len()
                    && self.values@[i as int].0@ == key@,
                None => self.position(key@) is None,
            },
    {
        let mut i: usize = 0;
        while i < self.values.len()
            invariant
                self.wf(),
                i <= self.values@.len(),
                forall|j: int| 0 <= j < i ==> (#[trigger] self.values@[j]).0@ != key@,
            decreases self.values@.len() - i,
        {
            if str_eq(self.values[i].0.as_str(), key) {
                proof {
                    let k = self.position(key@)->0;
                    if k < i {
                        assert(self.values@[k].0@ != key@);
                    } else if k > i {
                        assert(self.values@[i as int].0@ != self.values@[k].0@);
                    }
                }
                return Some(i);
            }
            i = i + 1;
        }
        None
    }

    /// The value of `key`, if it is set.
    pub fn get_value(&self, key: &str) -> (r: Option<&toml::Value>)
        requires
            self.wf(),
        ensures
            match self.position(key@) {
                Some(i) => r == Some(&self.values@[i].1),
                None => r is None,
            },
    {
        match self.find(key) {
            Some(i) => Some(&self.values[i].1),
            None => None,
        }
    }

    /// Sets `key` to `value`; a value that the key had is replaced.
    pub fn set_value(&mut self, key: &str, value: toml::Value)
        requires
            old(self).wf(),
        ensures
            final(self).wf(),
            final(self).path == old(self).path,
            match old(self).position(key@) {
                Some(i) => final(self).values@.len() == old(self).values@.len() && (forall|j: int|
                    0 <= j < old(self).values@.len() && j != i ==> final(self).values@[j] == old(self).values@[j]) && final(self).values@[i].0@ == key@ && final(self).values@[i].1
                    == value,
                None => final(self).values@.len() == old(self).values@.len() + 1 && final(self).values@.drop_last() == old(self).values@ && final(self).values@.last().0@ == key@
                    && final(self).values@.last().1 == value,
            },
    {
        match self.find(key) {
            Some(i) => {
                self.values.set(i, (String::from_str(key), value));
                assert forall|a: int, b: int| 0 <= a < b < self.values@.len() implies (
                #[trigger] self.values@[a]).0@ != (#[trigger] self.values@[b]).0@ by {
                    assert(old(self).values@[a].0@ != old(self).values@[b].0@);
                    assert(self.values@[a].0@ == old(self).values@[a].0@);
                    assert(self.values@[b].0@ == old(self).values@[b].0@);
                }
            },
            None => {
                self.values.push((String::from_str(key), value));
                assert(self.values@.drop_last() =~= old(self).values@);
                assert forall|a: int, b: int| 0 <= a < b < self.values@.len() implies (
                #[trigger] self.values@[a]).0@ != (#[trigger] self.values@[b]).0@ by {
                    assert(self.values@[a] == old(self).values@[a]);
                    if b < old(self).values@.len() {
                        assert(self.values@[b] == old(self).values@[b]);
                    }
                }
            },
        }
    }

    /// Removes `key` and hands out the value that it had.
    pub fn remove(&mut self, key: &str) -> (r: Option<toml::Value>)
        requires
            old(self).wf(),
        ensures
            final(self).wf(),
            final(self).path == old(self).path,
            final(self).position(key@) is None,
            match old(self).position(key@) {
                Some(i) => r == Some(old(self).values@[i].1) && final(self).values@ == old(self).values@.remove(i),
                None => r is None && final(self).values@ == old(self).values@,
            },
    {
        match self.find(key) {
            Some(i) => {
                let entry = self.values.remove(i);
                assert forall|j: int| 0 <= j < self.values@.len() implies (#[trigger] self.values@[j]).0@
                    != key@ by {
                    if j < i {
                        assert(self.values@[j] == old(self).values@[j]);
                        assert(old(self).values@[j].0@ != old(self).values@[i as int].0@);
                    } else {
                        assert(self.values@[j] == old(self).values@[j + 1]);
                        assert(old(self).values@[i as int].0@ != old(self).values@[j + 1].0@);
                    }
                }
                Some(entry.1)
            },
            None => None,
        }
    }

    /// Whether `key` is set.
    pub fn has_key(&self, key: &str) -> (r: bool)
        requires
            self.wf(),
        ensures
            r == (self.position(key@) is Some),
    {
        self.find(key).is_some()
    }

    /// The keys, in the order in which they were first set.
    pub fn keys(&self) -> (r: Vec<String>)
        ensures
            names_of(r@) == keys_of(self.values@),
    {
        let mut out: Vec<String> = Vec::new();
        let mut i: usize = 0;
        while i < self.values.len()
            invariant
                i <= self.values@.len(),
                out@.len() == i,
                forall|k: int| 0 <= k < i ==> #[trigger] out@[k]@ == self.values@[k].0@,
            decreases self.values@.len() - i,
        {
            out.push(self.values[i].0.clone());
            i = i + 1;
        }
        assert(names_of(out@) =~= keys_of(self.values@));
        out
    }

    /// Removes every key.
    pub fn clear(&mut self)
        ensures
            final(self).values@.len() == 0,
            final(self).path == old(self).path,
            final(self).wf(),
    {
        self.values.clear();
    }
}

} // verus!
