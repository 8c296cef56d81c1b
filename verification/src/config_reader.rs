use vstd::prelude::*;

use crate::json_map::{json_string_map, parse_json_string_map};
use crate::table::{entries_map, entry_keys, entry_values, find_last, lemma_entries_lookup};

verus! {

/// The AES keys that the relay shares with the servers: for each server's
/// domain, the base64 text of its key.
pub struct RelayKeys {
    entries: Vec<(String, String)>,
}

impl View for RelayKeys {
    type V = Map<Seq<char>, Seq<char>>;

    closed spec fn view(&self) -> Map<Seq<char>, Seq<char>> {
        entries_map(self.entries@)
    }
}

/// Why the relay's configuration could not be read.
pub enum ConfigError {
    /// The text is not a JSON object whose values are all strings; the parser's
    /// error says where and why.
    InvalidJson(serde_json::Error),
}

impl RelayKeys {
    /// No keys.
    pub fn new() -> (res: Self)
        ensures
            res@ == Map::<Seq<char>, Seq<char>>::empty(),
    {
        let res = RelayKeys { entries: Vec::new() };
        assert(entry_keys(res.entries@) =~= Seq::empty());
        res
    }

    /// Sets the key of `domain`, replacing any earlier one.
    pub fn insert(&mut self, domain: String, key_base64: String)
        ensures
            final(self)@ == old(self)@.insert(domain@, key_base64@),
    {
        let ghost old_entries = self.entries@;
        self.entries.push((domain, key_base64));
        proof {
            assert(entry_keys(self.entries@).drop_last() =~= entry_keys(old_entries));
            assert(entry_values(self.entries@).drop_last() =~= entry_values(old_entries));
        }
    }

    pub fn contains_key(&self, domain: &str) -> (res: bool)
        ensures
            res == self@.contains_key(domain@),
    {
        proof {
            lemma_entries_lookup(self.entries@, domain@);
        }
        find_last(&self.entries, domain).is_some()
    }

    /// The key of `domain`, if there is one.
    pub fn get(&self, domain: &str) -> (res: Option<&String>)
        ensures
            match res {
                Some(key) => self@.contains_key(domain@) && key@ == self@[domain@],
                None => !self@.contains_key(domain@),
            },
    {
        proof {
            lemma_entries_lookup(self.entries@, domain@);
        }
        match find_last(&self.entries, domain) {
            Some(i) => Some(&self.entries[i].1),
            None => None,
        }
    }
}

/// Reads the relay's keys from the text of its JSON configuration: an object
/// that maps each server's domain to the base64 text of its AES key.
pub fn parse_config(json: &str) -> (res: Result<RelayKeys, ConfigError>)
    ensures
        match res {
            Ok(keys) => json_string_map(json@) == Some(keys@),
            Err(_) => json_string_map(json@) is None,
        },
{
    match parse_json_string_map(json) {
        Ok(entries) => Ok(RelayKeys { entries }),
        Err(e) => Err(ConfigError::InvalidJson(e)),
    }
}

} // verus!
