use vstd::prelude::*;

use crate::server_config::{ServerConfig, ServerConfigView};
use crate::table::{
    entries_map,
    entry_keys,
    entry_values,
    find_last,
    is_last_index,
    lemma_entries_lookup,
    lemma_table_map_update,
};

verus! {

/// `domain` names a server of `servers` that has an AES key.
pub open spec fn is_valid_server(servers: Map<Seq<char>, ServerConfigView>, domain: Seq<char>) -> bool {
    servers.contains_key(domain) && servers[domain].base64key_aes.len() > 0
}

/// The servers once `domain` is marked connected.
pub open spec fn connect_server(servers: Map<Seq<char>, ServerConfigView>, domain: Seq<char>) -> Map<
    Seq<char>,
    ServerConfigView,
> {
    servers.insert(domain, ServerConfigView { is_connected: true, ..servers[domain] })
}

/// The server configurations known to the relay, by domain.
pub struct ServerConfigManager {
    my_hashmap: Vec<(String, ServerConfig)>,
}

impl View for ServerConfigManager {
    type V = Map<Seq<char>, ServerConfigView>;

    closed spec fn view(&self) -> Map<Seq<char>, ServerConfigView> {
        entries_map(self.my_hashmap@)
    }
}

impl ServerConfigManager {
    /// A manager of the configurations `hashmap`, each under its domain; where a
    /// domain comes twice, the later configuration is kept.
    pub fn new(hashmap: Vec<(String, ServerConfig)>) -> (res: Self)
        ensures
            res@ == entries_map(hashmap@),
    {
        Self { my_hashmap: hashmap }
    }

    /// Whether `domain` names a known server with a non-empty AES key. When it
    /// does, the server is marked connected; otherwise nothing changes.
    pub fn server_is_valid(&mut self, domain: &str) -> (res: bool)
        ensures
            res == is_valid_server(old(self)@, domain@),
            final(self)@ == if res {
                connect_server(old(self)@, domain@)
            } else {
                old(self)@
            },
    {
        proof {
            lemma_entries_lookup(self.my_hashmap@, domain@);
        }
        match find_last(&self.my_hashmap, domain) {
            Some(i) => {
                let key = self.my_hashmap[i].1.get_base64_key_aes();
                if !key.is_empty() {
                    let name = self.my_hashmap[i].0.clone();
                    let mut config = ServerConfig::new(
                        self.my_hashmap[i].1.get_server_name().to_owned(),
                        key.to_owned(),
                    );
                    config.set_is_connected(true);
                    let ghost old_entries = self.my_hashmap@;
                    self.my_hashmap.set(i, (name, config));
                    proof {
                        let ks = entry_keys(old_entries);
                        assert(entry_keys(self.my_hashmap@) =~= ks);
                        assert(entry_values(self.my_hashmap@) =~= entry_values(old_entries).update(
                            i as int,
                            config@,
                        ));
                        lemma_table_map_update(ks, entry_values(old_entries), i as int, config@);
                    }
                    true
                } else {
                    false
                }
            },
            None => false,
        }
    }

    /// The configuration of `domain`, if the relay knows it.
    pub fn get_server_config(&self, domain: &str) -> (res: Option<&ServerConfig>)
        ensures
            match res {
                Some(config) => self@.contains_key(domain@) && config@ == self@[domain@],
                None => !self@.contains_key(domain@),
            },
    {
        proof {
            lemma_entries_lookup(self.my_hashmap@, domain@);
        }
        match find_last(&self.my_hashmap, domain) {
            Some(i) => Some(&self.my_hashmap[i].1),
            None => None,
        }
    }
}

/// A server that validation accepts is connected afterwards, keeps its name and
/// key, and every other server is left as it was.
pub proof fn lemma_validation_connects(servers: Map<Seq<char>, ServerConfigView>, domain: Seq<char>)
    requires
        is_valid_server(servers, domain),
    ensures
        connect_server(servers, domain).contains_key(domain),
        connect_server(servers, domain)[domain].is_connected,
        connect_server(servers, domain)[domain].server_name == servers[domain].server_name,
        connect_server(servers, domain)[domain].base64key_aes == servers[domain].base64key_aes,
        connect_server(servers, domain).dom() == servers.dom(),
        forall|d: Seq<char>|
            d != domain && servers.contains_key(d) ==> #[trigger] connect_server(servers, domain)[d]
                == servers[d],
{
    assert(connect_server(servers, domain).dom() =~= servers.dom());
}

/// A server is valid exactly when its domain is known and its AES key text is
/// not empty, whether or not it is connected already; so validating it again
/// gives the same answer, and marking any server connected changes no answer.
pub proof fn lemma_validity_ignores_connection(
    servers: Map<Seq<char>, ServerConfigView>,
    domain: Seq<char>,
    other: Seq<char>,
    connected: bool,
)
    ensures
        is_valid_server(servers, domain) <==> (servers.contains_key(domain)
            && servers[domain].base64key_aes.len() != 0),
        is_valid_server(servers, domain) ==> is_valid_server(connect_server(servers, domain), domain),
        is_valid_server(
            if is_valid_server(servers, domain) {
                connect_server(servers, domain)
            } else {
                servers
            },
            domain,
        ) == is_valid_server(servers, domain),
        servers.contains_key(other) ==> (is_valid_server(
            servers.insert(other, ServerConfigView { is_connected: connected, ..servers[other] }),
            domain,
        ) == is_valid_server(servers, domain)),
{
    if servers.contains_key(other) {
        let changed = servers.insert(
            other,
            ServerConfigView { is_connected: connected, ..servers[other] },
        );
        if other == domain {
            assert(changed[domain].base64key_aes == servers[domain].base64key_aes);
        }
    }
}

} // verus!
