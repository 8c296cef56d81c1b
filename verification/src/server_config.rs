use vstd::prelude::*;

verus! {

/// What a server configuration holds, as plain values.
pub struct ServerConfigView {
    pub server_name: Seq<char>,
    pub base64key_aes: Seq<char>,
    pub is_connected: bool,
}

/// The configuration of one server: its name, the base64 text of the AES key it
/// shares with the relay, and whether it is currently connected.
pub struct ServerConfig {
    server_name: String,
    base64key_aes: String,
    is_connected: bool,
}

impl View for ServerConfig {
    type V = ServerConfigView;

    closed spec fn view(&self) -> ServerConfigView {
        ServerConfigView {
            server_name: self.server_name@,
            base64key_aes: self.base64key_aes@,
            is_connected: self.is_connected,
        }
    }
}

impl ServerConfig {
    /// A configuration that is not connected yet.
    pub fn new(server_name: String, base64key_aes: String) -> (res: Self)
        ensures
            res@.server_name == server_name@,
            res@.base64key_aes == base64key_aes@,
            !res@.is_connected,
    {
        Self { server_name, base64key_aes, is_connected: false }
    }

    pub fn get_server_name(&self) -> (res: &str)
        ensures
            res@ == self@.server_name,
    {
        self.server_name.as_str()
    }

    pub fn get_base64_key_aes(&self) -> (res: &str)
        ensures
            res@ == self@.base64key_aes,
    {
        self.base64key_aes.as_str()
    }

    /// Records whether the server is connected; nothing else changes.
    pub fn set_is_connected(&mut self, is_connected: bool)
        ensures
            final(self)@ == (ServerConfigView { is_connected, ..old(self)@ }),
    {
        self.is_connected = is_connected;
    }

    pub fn is_connected(&self) -> (res: bool)
        ensures
            res == self@.is_connected,
    {
        self.is_connected
    }
}

} // verus!
