//! The configuration of an overlay instance.
use vstd::prelude::*;
use crate::path::chars_of;

verus! {

/// How much the overlay logs.
#[derive(Clone, Copy, Debug, PartialEq, Eq, Structural)]
pub enum LogLevel {
    Debug,
    Info,
    Warning,
    Error,
}

pub open spec fn log_level_name(l: LogLevel) -> Seq<char> {
    match l {
        LogLevel::Debug => "debug"@,
        LogLevel::Info => "info"@,
        LogLevel::Warning => "warning"@,
        LogLevel::Error => "error"@,
    }
}

impl LogLevel {
    /// The level's name in lower case.
    pub fn to_string(&self) -> (r: String)
        ensures
            r@ == log_level_name(*self),
    {
        match self {
            LogLevel::Debug => "debug".to_owned(),
            LogLevel::Info => "info".to_owned(),
            LogLevel::Warning => "warning".to_owned(),
            LogLevel::Error => "error".to_owned(),
        }
    }
}

/// What a crash dump holds.
#[derive(Clone, Copy, Debug, PartialEq, Eq, Structural)]
pub enum CrashDumpsType {
    Nil,
    Mini,
    Data,
    Full,
}

pub open spec fn crash_dumps_name(t: CrashDumpsType) -> Seq<char> {
    match t {
        CrashDumpsType::Nil => "none"@,
        CrashDumpsType::Mini => "mini"@,
        CrashDumpsType::Data => "data"@,
        CrashDumpsType::Full => "full"@,
    }
}

impl CrashDumpsType {
    /// The type's name in lower case; no dumps at all is `none`.
    pub fn to_string(&self) -> (r: String)
        ensures
            r@ == crash_dumps_name(*self),
    {
        match self {
            CrashDumpsType::Nil => "none".to_owned(),
            CrashDumpsType::Mini => "mini".to_owned(),
            CrashDumpsType::Data => "data".to_owned(),
            CrashDumpsType::Full => "full".to_owned(),
        }
    }
}

/// A configuration value that the engine cannot represent.
#[derive(Clone, Copy, Debug, PartialEq, Eq, Structural)]
pub enum ConfigurationError {
    /// A name or path holds a NUL character.
    NulCharacter,
    /// The delay does not fit the engine's signed 32-bit milliseconds.
    DelayOutOfRange,
}

/// The largest process delay, in milliseconds.
pub const MAX_PROCESS_DELAY_MS: u64 = 0x7fff_ffff;

pub open spec fn has_nul(s: Seq<char>) -> bool {
    exists|i: int| 0 <= i < s.len() && s[i] == '\0'
}

pub fn contains_nul(s: &Vec<char>) -> (r: bool)
    ensures
        r == has_nul(s@),
{
    let mut i: usize = 0;
    while i < s.len()
        invariant
            i <= s.len(),
            forall|j: int| 0 <= j < i ==> s@[j] != '\0',
        decreases s.len() - i,
    {
        if s[i] == '\0' {
            return true;
        }
        i = i + 1;
    }
    false
}

/// The settings with which an overlay instance is created or connected to.
pub struct Parameters {
    pub instance_name: Vec<char>,
    pub debug_mode: bool,
    pub log_level: LogLevel,
    pub crash_dumps_type: CrashDumpsType,
    /// Where crash dumps go; empty for the current working directory.
    pub crash_dumps_path: Vec<char>,
    pub process_delay_ms: u32,
}

impl Parameters {
    /// Parameters with an empty instance name, no debug output, debug log
    /// level, no crash dumps and no process delay.
    pub fn new() -> (r: Parameters)
        ensures
            r.instance_name@ == Seq::<char>::empty(),
            !r.debug_mode,
            r.log_level == LogLevel::Debug,
            r.crash_dumps_type == CrashDumpsType::Nil,
            r.crash_dumps_path@ == Seq::<char>::empty(),
            r.process_delay_ms == 0,
    {
        Parameters {
            instance_name: Vec::new(),
            debug_mode: false,
            log_level: LogLevel::Debug,
            crash_dumps_type: CrashDumpsType::Nil,
            crash_dumps_path: Vec::new(),
            process_delay_ms: 0,
        }
    }

    /// Sets the name of the overlay instance; a name with a NUL character
    /// is refused.
    pub fn set_instance_name(&mut self, name: &str) -> (r: Result<(), ConfigurationError>)
        ensures
            r is Err <==> has_nul(name@),
            r is Err ==> r == Err::<(), _>(ConfigurationError::NulCharacter) && *final(self)
                == *old(self),
            r is Ok ==> final(self).instance_name@ == name@ && final(self).debug_mode
                == old(self).debug_mode && final(self).log_level == old(self).log_level
                && final(self).crash_dumps_type == old(self).crash_dumps_type
                && final(self).crash_dumps_path == old(self).crash_dumps_path
                && final(self).process_delay_ms == old(self).process_delay_ms,
    {
        let chars = chars_of(name);
        if contains_nul(&chars) {
            return Err(ConfigurationError::NulCharacter);
        }
        self.instance_name = chars;
        Ok(())
    }

    pub fn set_debug_mode(&mut self, debug_mode: bool)
        ensures
            *final(self) == (Parameters { debug_mode, ..*old(self) }),
    {
        self.debug_mode = debug_mode;
    }

    pub fn set_log_level(&mut self, log_level: LogLevel)
        ensures
            *final(self) == (Parameters { log_level, ..*old(self) }),
    {
        self.log_level = log_level;
    }

    pub fn set_crash_dumps_type(&mut self, dump_type: CrashDumpsType)
        ensures
            *final(self) == (Parameters { crash_dumps_type: dump_type, ..*old(self) }),
    {
        self.crash_dumps_type = dump_type;
    }

    /// Sets where crash dumps go; an empty path means the current working
    /// directory, and a path with a NUL character is refused.
    pub fn set_crash_dumps_path(&mut self, path: &str) -> (r: Result<(), ConfigurationError>)
        ensures
            r is Err <==> has_nul(path@),
            r is Err ==> r == Err::<(), _>(ConfigurationError::NulCharacter) && *final(self)
                == *old(self),
            r is Ok ==> final(self).crash_dumps_path@ == path@ && final(self).instance_name
                == old(self).instance_name && final(self).debug_mode == old(self).debug_mode
                && final(self).log_level == old(self).log_level && final(self).crash_dumps_type
                == old(self).crash_dumps_type && final(self).process_delay_ms
                == old(self).process_delay_ms,
    {
        let chars = chars_of(path);
        if contains_nul(&chars) {
            return Err(ConfigurationError::NulCharacter);
        }
        self.crash_dumps_path = chars;
        Ok(())
    }

    /// Sets the stall, in milliseconds, before a hooked process runs its
    /// own code; it must fit a signed 32-bit count.
    pub fn set_process_delay(&mut self, milliseconds: u64) -> (r: Result<(), ConfigurationError>)
        ensures
            r is Err <==> milliseconds > MAX_PROCESS_DELAY_MS,
            r is Err ==> r == Err::<(), _>(ConfigurationError::DelayOutOfRange) && *final(self)
                == *old(self),
            r is Ok ==> *final(self) == (Parameters {
                process_delay_ms: milliseconds as u32,
                ..*old(self)
            }),
    {
        if milliseconds > MAX_PROCESS_DELAY_MS {
            return Err(ConfigurationError::DelayOutOfRange);
        }
        self.process_delay_ms = milliseconds as u32;
        Ok(())
    }

    /// Releases the parameters.
    pub fn free_parameters(self) {
    }
}

} // verus!
