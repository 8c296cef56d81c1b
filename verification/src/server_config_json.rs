use vstd::prelude::*;

verus! {

/// A server entry as the relay's JSON configuration names it: the server's name
/// and the base64 text of the AES key it shares with the relay.
pub struct ServerConfig {
    server_name: String,
    base64_key_aes: String,
}

impl ServerConfig {
    /// The name of the server.
    pub closed spec fn name(&self) -> Seq<char> {
        self.server_name@
    }

    /// The base64 text of the server's AES key.
    pub closed spec fn key_text(&self) -> Seq<char> {
        self.base64_key_aes@
    }

    pub fn new(server_name: String, base64_key_aes: String) -> (res: Self)
        ensures
            res.name() == server_name@,
            res.key_text() == base64_key_aes@,
    {
        Self { server_name, base64_key_aes }
    }

    pub fn get_server_name(&self) -> (res: &str)
        ensures
            res@ == self.name(),
    {
        self.server_name.as_str()
    }

    pub fn get_base64_key_aes(&self) -> (res: &str)
        ensures
            res@ == self.key_text(),
    {
        self.base64_key_aes.as_str()
    }
}

} // verus!
