//! The settings snapshot that is loaded once at startup and read-only afterwards.

use vstd::prelude::*;

verus! {

/// Settings of the log file.
#[derive(Debug)]
pub struct LogConfig {
    /// Path of the log file.
    pub file: String,
    /// Threshold below which records are discarded.
    pub level: String,
    /// Number of rotated files that are kept.
    pub file_num: u32,
    /// Size in bytes at which the log file is rotated.
    pub file_size: u64,
}

impl Default for LogConfig {
    fn default() -> (config: Self)
        ensures
            config.file@ == Seq::<char>::empty(),
            config.level@ == Seq::<char>::empty(),
            config.file_num == 0,
            config.file_size == 0,
    {
        LogConfig { file: String::new(), level: String::new(), file_num: 0, file_size: 0 }
    }
}

/// Settings of the UDP side.
#[derive(Debug)]
pub struct UdpConfig {
    /// Largest datagram, in bytes, that a buffer slot can take.
    pub m_size: usize,
    /// Address the socket binds to.
    pub host: Option<String>,
    /// Port the socket binds to.
    pub port: u16,
}

impl Default for UdpConfig {
    fn default() -> (config: Self)
        ensures
            config.m_size == 0,
            config.host is None,
            config.port == 0,
    {
        UdpConfig { m_size: 0, host: None, port: 0 }
    }
}

/// Settings of the broker side.
#[derive(Debug)]
pub struct MqConfig {
    /// Identifier under which the client registers with the broker.
    pub client_id: String,
    /// User name for the broker.
    pub user: String,
    /// Password for the broker.
    pub passwd: String,
    /// Host name of the broker.
    pub host: String,
    /// Port of the broker.
    pub port: u16,
    /// Keep-alive interval in seconds.
    pub keepalive: u64,
    /// Quality-of-service level.
    pub qos: u8,
    /// Whether the broker is asked to retain messages.
    pub retain: bool,
    /// String that discriminates topics.
    pub topic_d: String,
}

impl Default for MqConfig {
    fn default() -> (config: Self)
        ensures
            config.client_id@ == Seq::<char>::empty(),
            config.user@ == Seq::<char>::empty(),
            config.passwd@ == Seq::<char>::empty(),
            config.host@ == Seq::<char>::empty(),
            config.port == 0,
            config.keepalive == 0,
            config.qos == 0,
            !config.retain,
            config.topic_d@ == Seq::<char>::empty(),
    {
        MqConfig {
            client_id: String::new(),
            user: String::new(),
            passwd: String::new(),
            host: String::new(),
            port: 0,
            keepalive: 0,
            qos: 0,
            retain: false,
            topic_d: String::new(),
        }
    }
}

/// The whole settings snapshot. A section that the configuration source
/// leaves out takes its default.
#[derive(Debug)]
pub struct ServerConfig {
    /// Logging section.
    pub log: LogConfig,
    /// UDP section.
    pub udp: UdpConfig,
    /// Broker section.
    pub mq: MqConfig,
}

impl ServerConfig {
    /// Every field of every section has its default: numbers are zero, strings
    /// are empty, options are absent and flags are off.
    pub open spec fn is_default(&self) -> bool {
        &&& self.log.file@ == Seq::<char>::empty()
        &&& self.log.level@ == Seq::<char>::empty()
        &&& self.log.file_num == 0
        &&& self.log.file_size == 0
        &&& self.udp.m_size == 0
        &&& self.udp.host is None
        &&& self.udp.port == 0
        &&& self.mq.client_id@ == Seq::<char>::empty()
        &&& self.mq.user@ == Seq::<char>::empty()
        &&& self.mq.passwd@ == Seq::<char>::empty()
        &&& self.mq.host@ == Seq::<char>::empty()
        &&& self.mq.port == 0
        &&& self.mq.keepalive == 0
        &&& self.mq.qos == 0
        &&& !self.mq.retain
        &&& self.mq.topic_d@ == Seq::<char>::empty()
    }
}

impl Default for ServerConfig {
    fn default() -> (config: Self)
        ensures
            config.is_default(),
    {
        ServerConfig { log: LogConfig::default(), udp: UdpConfig::default(), mq: MqConfig::default() }
    }
}

} // verus!
