use crate::config::constants;
use crate::digest::same_bytes;
use crate::encoder_decoder::bencode::{all_digits, digits_value, index_of, read_digits};
use crate::text::text_of;
use vstd::prelude::*;
use vstd::string::StringSliceAdditionalSpecFns;
use vstd::utf8::{decode_utf8, valid_utf8};

verus! {

/// The settings of the client, as the configuration file gives them.
///
/// A setting that the file does not give keeps the value that `Cfg::start`
/// gives it.
#[derive(Debug, PartialEq, Eq, Clone)]
pub struct Cfg {
    /// Port on which incoming connections are accepted.
    pub tcp_port: u16,
    /// Directory of the log files.
    pub log_directory: String,
    /// Directory under which the downloaded files are written.
    pub download_directory: String,
    /// Number of block requests kept in flight for one piece.
    pub pipelining_size: u32,
    /// Seconds after which a socket read or write gives up.
    pub read_write_seconds_timeout: u64,
    /// Most sessions that one torrent keeps open at a time.
    pub max_peers_per_torrent: u32,
    /// Size in kilobytes after which a log file is rotated.
    pub max_log_file_kb_size: u32,
}

/// Why a configuration could not be read.
#[derive(Debug, PartialEq, Eq, Clone, Copy, Structural)]
pub enum CfgError {
    /// A line is not a name, one equals sign and a value.
    InvalidFormat,
    /// A line names no setting of the client.
    UnknownSetting,
    /// The value of a numeric setting is no number that fits it.
    NotANumber,
    /// A directory is no text.
    NotText,
    /// Fewer lines than `MIN_SETTINGS`.
    MissingSettings,
}

/// The settings as contracts see them.
pub struct CfgFields {
    pub tcp_port: u16,
    pub log_directory: Seq<char>,
    pub download_directory: Seq<char>,
    pub pipelining_size: u32,
    pub read_write_seconds_timeout: u64,
    pub max_peers_per_torrent: u32,
    pub max_log_file_kb_size: u32,
}

/// The settings before any line is read: no port, no directories, five
/// requests in flight, two minutes of patience, thirty sessions for each
/// torrent, and log files of a hundred kilobytes.
pub open spec fn start_fields() -> CfgFields {
    CfgFields {
        tcp_port: 0,
        log_directory: Seq::empty(),
        download_directory: Seq::empty(),
        pipelining_size: 5,
        read_write_seconds_timeout: 120,
        max_peers_per_torrent: 30,
        max_log_file_kb_size: 100,
    }
}

/// The number that a value spells, if it is at most `limit`: an optional
/// plus sign, then at least one digit and nothing but digits.
pub open spec fn number_of(value: Seq<u8>, limit: int) -> Option<int> {
    let digits = if value.len() > 0 && value[0] == 0x2b {
        value.drop_first()
    } else {
        value
    };
    if digits.len() == 0 || !all_digits(digits) || digits_value(digits) > limit {
        None
    } else {
        Some(digits_value(digits))
    }
}

/// The text that a value is.
pub open spec fn text_value(value: Seq<u8>) -> Result<Seq<char>, CfgError> {
    if valid_utf8(value) {
        Ok(decode_utf8(value))
    } else {
        Err(CfgError::NotText)
    }
}

/// The settings after one more of them is given by name.
pub open spec fn loaded(fields: CfgFields, name: Seq<u8>, value: Seq<u8>) -> Result<
    CfgFields,
    CfgError,
> {
    if name == constants::TCP_PORT.spec_bytes() {
        match number_of(value, u16::MAX as int) {
            Some(number) => Ok(CfgFields { tcp_port: number as u16, ..fields }),
            None => Err(CfgError::NotANumber),
        }
    } else if name == constants::LOG_DIRECTORY.spec_bytes() {
        match text_value(value) {
            Ok(text) => Ok(CfgFields { log_directory: text, ..fields }),
            Err(error) => Err(error),
        }
    } else if name == constants::DOWNLOAD_DIRECTORY.spec_bytes() {
        match text_value(value) {
            Ok(text) => Ok(CfgFields { download_directory: text, ..fields }),
            Err(error) => Err(error),
        }
    } else if name == constants::PIPELINING_SIZE.spec_bytes() {
        match number_of(value, u32::MAX as int) {
            Some(number) => Ok(CfgFields { pipelining_size: number as u32, ..fields }),
            None => Err(CfgError::NotANumber),
        }
    } else if name == constants::READ_WRITE_SECONDS_TIMEOUT.spec_bytes() {
        match number_of(value, u64::MAX as int) {
            Some(number) => Ok(
                CfgFields { read_write_seconds_timeout: number as u64, ..fields },
            ),
            None => Err(CfgError::NotANumber),
        }
    } else if name == constants::MAX_PEERS_PER_TORRENT.spec_bytes() {
        match number_of(value, u32::MAX as int) {
            Some(number) => Ok(CfgFields { max_peers_per_torrent: number as u32, ..fields }),
            None => Err(CfgError::NotANumber),
        }
    } else if name == constants::MAX_LOG_FILE_KB_SIZE.spec_bytes() {
        match number_of(value, u32::MAX as int) {
            Some(number) => Ok(CfgFields { max_log_file_kb_size: number as u32, ..fields }),
            None => Err(CfgError::NotANumber),
        }
    } else {
        Err(CfgError::UnknownSetting)
    }
}

/// A line without the carriage return that may end it.
pub open spec fn without_return(line: Seq<u8>) -> Seq<u8> {
    if line.len() > 0 && line.last() == 0x0d {
        line.drop_last()
    } else {
        line
    }
}

/// The settings after one line: a name, one equals sign and a value.
pub open spec fn line_loaded(fields: CfgFields, line: Seq<u8>) -> Result<CfgFields, CfgError> {
    let equals = index_of(line, 0x3d, 0);
    if equals >= line.len() || index_of(line, 0x3d, equals + 1) < line.len() {
        Err(CfgError::InvalidFormat)
    } else {
        loaded(fields, line.subrange(0, equals), line.subrange(equals + 1, line.len() as int))
    }
}

/// The settings that the lines from `at` on give, after `count` lines that
/// gave `fields`. Lines end with a line feed, which a carriage return may
/// precede; the last line may do without.
pub open spec fn lines_loaded(data: Seq<u8>, at: int, fields: CfgFields, count: int) -> Result<
    CfgFields,
    CfgError,
>
    decreases data.len() + 1 - at,
{
    if at < 0 || at >= data.len() {
        if count < constants::MIN_SETTINGS {
            Err(CfgError::MissingSettings)
        } else {
            Ok(fields)
        }
    } else {
        let end = index_of(data, 0x0a, at);
        if end < at || end > data.len() {
            Err(CfgError::InvalidFormat)
        } else {
            match line_loaded(fields, without_return(data.subrange(at, end))) {
                Ok(more) => lines_loaded(data, end + 1, more, count + 1),
                Err(error) => Err(error),
            }
        }
    }
}

/// Reads a number of at most `limit`.
fn read_number(value: &[u8], limit: u64) -> (number: Option<u64>)
    ensures
        match number_of(value@, limit as int) {
            Some(read) => number matches Some(found) && found == read && found <= limit,
            None => number is None,
        },
{
    let from: usize = if value.len() > 0 && value[0] == 0x2b {
        1
    } else {
        0
    };
    proof {
        if from == 1 {
            assert(value@.drop_first() =~= value@.subrange(1, value@.len() as int));
        } else {
            assert(value@ =~= value@.subrange(0, value@.len() as int));
        }
    }
    read_digits(value, from, value.len(), limit)
}

/// The first position from `from` on that holds `byte`.
fn position_of(data: &[u8], byte: u8, from: usize) -> (at: usize)
    requires
        from <= data@.len(),
    ensures
        at == index_of(data@, byte, from as int),
        from <= at <= data@.len(),
{
    let mut at: usize = from;
    while at < data.len() && data[at] != byte
        invariant
            from <= at <= data@.len(),
            index_of(data@, byte, from as int) == index_of(data@, byte, at as int),
        decreases data@.len() - at,
    {
        at += 1;
    }
    at
}

impl View for Cfg {
    type V = CfgFields;

    open spec fn view(&self) -> CfgFields {
        CfgFields {
            tcp_port: self.tcp_port,
            log_directory: self.log_directory@,
            download_directory: self.download_directory@,
            pipelining_size: self.pipelining_size,
            read_write_seconds_timeout: self.read_write_seconds_timeout,
            max_peers_per_torrent: self.max_peers_per_torrent,
            max_log_file_kb_size: self.max_log_file_kb_size,
        }
    }
}

impl Cfg {
    /// The settings before any line is read.
    pub fn start() -> (cfg: Self)
        ensures
            cfg@ == start_fields(),
    {
        Self {
            tcp_port: 0,
            log_directory: String::new(),
            download_directory: String::new(),
            pipelining_size: 5,
            read_write_seconds_timeout: 120,
            max_peers_per_torrent: 30,
            max_log_file_kb_size: 100,
        }
    }

    /// Reads the settings from the text of a configuration file: one
    /// setting on each line, as a name, an equals sign and a value.
    ///
    /// A line that is not of this form is `InvalidFormat`, a name that is
    /// no setting `UnknownSetting`, a numeric setting that is no number
    /// within its range `NotANumber`; fewer lines than `MIN_SETTINGS` are
    /// `MissingSettings`. The order of the lines does not matter, and of
    /// two lines for one setting the later one counts.
    pub fn parse(contents: &str) -> (result: Result<Self, CfgError>)
        ensures
            match lines_loaded(contents.spec_bytes(), 0, start_fields(), 0) {
                Ok(fields) => result matches Ok(cfg) && cfg@ == fields,
                Err(error) => result == Err::<Self, CfgError>(error),
            },
    {
        let data = contents.as_bytes();
        let mut cfg = Cfg::start();
        let mut count: usize = 0;
        let mut at: usize = 0;
        while at < data.len()
            invariant
                at <= data@.len(),
                count <= at,
                data@ == contents.spec_bytes(),
                lines_loaded(contents.spec_bytes(), 0, start_fields(), 0) == lines_loaded(
                    data@,
                    at as int,
                    cfg@,
                    count as int,
                ),
            decreases data@.len() - at,
        {
            let end = position_of(data, 0x0a, at);
            let line_end: usize = if end > at && data[end - 1] == 0x0d {
                end - 1
            } else {
                end
            };
            let ghost whole = data@.subrange(at as int, end as int);
            proof {
                if end > at {
                    assert(whole.last() == data@[end - 1]);
                }
                assert(without_return(whole) =~= data@.subrange(at as int, line_end as int));
            }
            let line = vstd::slice::slice_subrange(data, at, line_end);
            let ghost before = cfg@;
            assert(lines_loaded(data@, at as int, before, count as int) == (match line_loaded(
                before,
                without_return(whole),
            ) {
                Ok(more) => lines_loaded(data@, end + 1, more, count + 1),
                Err(error) => Err(error),
            }));
            cfg = match Cfg::load_line(cfg, line) {
                Ok(more) => more,
                Err(error) => { return Err(error); },
            };
            assert(end == data@.len() ==> lines_loaded(data@, end + 1, cfg@, count + 1)
                == lines_loaded(data@, end as int, cfg@, count + 1));
            count += 1;
            at = if end < data.len() {
                end + 1
            } else {
                end
            };
        }
        if count < constants::MIN_SETTINGS {
            return Err(CfgError::MissingSettings);
        }
        Ok(cfg)
    }

    /// Takes one line: a name, one equals sign and a value.
    fn load_line(self, line: &[u8]) -> (result: Result<Self, CfgError>)
        ensures
            match line_loaded(self@, line@) {
                Ok(fields) => result matches Ok(cfg) && cfg@ == fields,
                Err(error) => result == Err::<Self, CfgError>(error),
            },
    {
        let equals = position_of(line, 0x3d, 0);
        if equals >= line.len() {
            return Err(CfgError::InvalidFormat);
        }
        if position_of(line, 0x3d, equals + 1) < line.len() {
            return Err(CfgError::InvalidFormat);
        }
        let name = vstd::slice::slice_subrange(line, 0, equals);
        let value = vstd::slice::slice_subrange(line, equals + 1, line.len());
        self.load_bytes(name, value)
    }

    /// Gives the setting with the given name its value.
    pub fn load_setting(self, name: &str, value: &str) -> (result: Result<Self, CfgError>)
        ensures
            match loaded(self@, name.spec_bytes(), value.spec_bytes()) {
                Ok(fields) => result matches Ok(cfg) && cfg@ == fields,
                Err(error) => result == Err::<Self, CfgError>(error),
            },
    {
        self.load_bytes(name.as_bytes(), value.as_bytes())
    }

    /// Gives the setting with the given name its value, both as bytes.
    fn load_bytes(self, name: &[u8], value: &[u8]) -> (result: Result<Self, CfgError>)
        ensures
            match loaded(self@, name@, value@) {
                Ok(fields) => result matches Ok(cfg) && cfg@ == fields,
                Err(error) => result == Err::<Self, CfgError>(error),
            },
    {
        let mut cfg = self;
        if same_bytes(name, constants::TCP_PORT.as_bytes()) {
            match read_number(value, 0xFFFF) {
                Some(number) => { cfg.tcp_port = number as u16; },
                None => { return Err(CfgError::NotANumber); },
            }
        } else if same_bytes(name, constants::LOG_DIRECTORY.as_bytes()) {
            match text_of(value) {
                Some(text) => { cfg.log_directory = text; },
                None => { return Err(CfgError::NotText); },
            }
        } else if same_bytes(name, constants::DOWNLOAD_DIRECTORY.as_bytes()) {
            match text_of(value) {
                Some(text) => { cfg.download_directory = text; },
                None => { return Err(CfgError::NotText); },
            }
        } else if same_bytes(name, constants::PIPELINING_SIZE.as_bytes()) {
            match read_number(value, 0xFFFF_FFFF) {
                Some(number) => { cfg.pipelining_size = number as u32; },
                None => { return Err(CfgError::NotANumber); },
            }
        } else if same_bytes(name, constants::READ_WRITE_SECONDS_TIMEOUT.as_bytes()) {
            match read_number(value, 0xFFFF_FFFF_FFFF_FFFF) {
                Some(number) => { cfg.read_write_seconds_timeout = number; },
                None => { return Err(CfgError::NotANumber); },
            }
        } else if same_bytes(name, constants::MAX_PEERS_PER_TORRENT.as_bytes()) {
            match read_number(value, 0xFFFF_FFFF) {
                Some(number) => { cfg.max_peers_per_torrent = number as u32; },
                None => { return Err(CfgError::NotANumber); },
            }
        } else if same_bytes(name, constants::MAX_LOG_FILE_KB_SIZE.as_bytes()) {
            match read_number(value, 0xFFFF_FFFF) {
                Some(number) => { cfg.max_log_file_kb_size = number as u32; },
                None => { return Err(CfgError::NotANumber); },
            }
        } else {
            return Err(CfgError::UnknownSetting);
        }
        Ok(cfg)
    }
}

} // verus!
