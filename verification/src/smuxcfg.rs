//! The smux configuration that is built from the flags.
use vstd::prelude::*;

verus! {

/// A smux session configuration.
#[derive(Debug, Clone, Copy, PartialEq, Eq)]
pub struct SmuxConfig {
    /// smux protocol version, 1 or 2.
    pub version: i64,
    /// Disables keepalive frames entirely.
    pub keep_alive_disabled: bool,
    /// How often a NOP frame is sent, in nanoseconds.
    pub keep_alive_interval: u128,
    /// How long the session may stay silent before it is closed, in nanoseconds.
    pub keep_alive_timeout: u128,
    /// Largest frame written to the peer.
    pub max_frame_size: i64,
    /// Overall de-multiplexing buffer.
    pub max_receive_buffer: i64,
    /// Per-stream receive buffer (smux v2+).
    pub max_stream_buffer: i64,
}

/// One second in nanoseconds.
pub const SECOND: u128 = 1_000_000_000;

/// The configuration of smux itself.
pub open spec fn default_config() -> SmuxConfig {
    SmuxConfig {
        version: 1,
        keep_alive_disabled: false,
        keep_alive_interval: 10_000_000_000,
        keep_alive_timeout: 30_000_000_000,
        max_frame_size: 32768,
        max_receive_buffer: 4194304,
        max_stream_buffer: 65536,
    }
}

impl Default for SmuxConfig {
    fn default() -> (c: Self)
        ensures
            c == default_config(),
    {
        SmuxConfig {
            version: 1,
            keep_alive_disabled: false,
            keep_alive_interval: 10_000_000_000,
            keep_alive_timeout: 30_000_000_000,
            max_frame_size: 32768,
            max_receive_buffer: 4194304,
            max_stream_buffer: 65536,
        }
    }
}

/// Why a smux configuration was rejected.
#[derive(Debug, Clone, Copy, PartialEq, Eq, Structural)]
pub enum SmuxConfigError {
    UnsupportedProtocolVersion,
    KeepAliveIntervalNotPositive,
    KeepAliveTimeoutTooSmall,
    MaxFrameSizeNotPositive,
    MaxFrameSizeTooLarge,
    MaxReceiveBufferNotPositive,
    MaxReceiveBufferTooLarge,
    MaxStreamBufferNotPositive,
    MaxStreamBufferLargerThanReceiveBuffer,
    MaxStreamBufferTooLarge,
}

impl SmuxConfigError {
    /// The text of the error.
    pub fn message(&self) -> (s: &'static str)
        ensures
            s@ == (match *self {
                SmuxConfigError::UnsupportedProtocolVersion => "unsupported protocol version"@,
                SmuxConfigError::KeepAliveIntervalNotPositive => {
                    "keep-alive interval must be positive"@
                },
                SmuxConfigError::KeepAliveTimeoutTooSmall => {
                    "keep-alive timeout must be larger than keep-alive interval"@
                },
                SmuxConfigError::MaxFrameSizeNotPositive => "max frame size must be positive"@,
                SmuxConfigError::MaxFrameSizeTooLarge => {
                    "max frame size must not be larger than 65535"@
                },
                SmuxConfigError::MaxReceiveBufferNotPositive => {
                    "max receive buffer must be positive"@
                },
                SmuxConfigError::MaxReceiveBufferTooLarge => {
                    "max receive buffer cannot be larger than 2147483647"@
                },
                SmuxConfigError::MaxStreamBufferNotPositive => {
                    "max stream buffer must be positive"@
                },
                SmuxConfigError::MaxStreamBufferLargerThanReceiveBuffer => {
                    "max stream buffer must not be larger than max receive buffer"@
                },
                SmuxConfigError::MaxStreamBufferTooLarge => {
                    "max stream buffer cannot be larger than 2147483647"@
                },
            }),
    {
        match self {
            SmuxConfigError::UnsupportedProtocolVersion => "unsupported protocol version",
            SmuxConfigError::KeepAliveIntervalNotPositive => "keep-alive interval must be positive",
            SmuxConfigError::KeepAliveTimeoutTooSmall => {
                "keep-alive timeout must be larger than keep-alive interval"
            },
            SmuxConfigError::MaxFrameSizeNotPositive => "max frame size must be positive",
            SmuxConfigError::MaxFrameSizeTooLarge => "max frame size must not be larger than 65535",
            SmuxConfigError::MaxReceiveBufferNotPositive => "max receive buffer must be positive",
            SmuxConfigError::MaxReceiveBufferTooLarge => {
                "max receive buffer cannot be larger than 2147483647"
            },
            SmuxConfigError::MaxStreamBufferNotPositive => "max stream buffer must be positive",
            SmuxConfigError::MaxStreamBufferLargerThanReceiveBuffer => {
                "max stream buffer must not be larger than max receive buffer"
            },
            SmuxConfigError::MaxStreamBufferTooLarge => {
                "max stream buffer cannot be larger than 2147483647"
            },
        }
    }
}

impl SmuxConfig {
    /// The first thing that is wrong with a configuration, in the order in which it is checked.
    pub open spec fn fault(self) -> Option<SmuxConfigError> {
        if self.version != 1 && self.version != 2 {
            Some(SmuxConfigError::UnsupportedProtocolVersion)
        } else if !self.keep_alive_disabled && self.keep_alive_interval == 0 {
            Some(SmuxConfigError::KeepAliveIntervalNotPositive)
        } else if !self.keep_alive_disabled && self.keep_alive_timeout < self.keep_alive_interval {
            Some(SmuxConfigError::KeepAliveTimeoutTooSmall)
        } else if self.max_frame_size <= 0 {
            Some(SmuxConfigError::MaxFrameSizeNotPositive)
        } else if self.max_frame_size > 65535 {
            Some(SmuxConfigError::MaxFrameSizeTooLarge)
        } else if self.max_receive_buffer <= 0 {
            Some(SmuxConfigError::MaxReceiveBufferNotPositive)
        } else if self.max_receive_buffer > i32::MAX {
            Some(SmuxConfigError::MaxReceiveBufferTooLarge)
        } else if self.max_stream_buffer <= 0 {
            Some(SmuxConfigError::MaxStreamBufferNotPositive)
        } else if self.max_stream_buffer > self.max_receive_buffer {
            Some(SmuxConfigError::MaxStreamBufferLargerThanReceiveBuffer)
        } else if self.max_stream_buffer > i32::MAX {
            Some(SmuxConfigError::MaxStreamBufferTooLarge)
        } else {
            None
        }
    }

    /// Checks the configuration.
    pub fn verify(&self) -> (r: Result<(), SmuxConfigError>)
        ensures
            r == (match self.fault() {
                Some(e) => Err(e),
                None => Ok(()),
            }),
    {
        if !(self.version == 1 || self.version == 2) {
            return Err(SmuxConfigError::UnsupportedProtocolVersion);
        }
        if !self.keep_alive_disabled {
            if self.keep_alive_interval == 0 {
                return Err(SmuxConfigError::KeepAliveIntervalNotPositive);
            }
            if self.keep_alive_timeout < self.keep_alive_interval {
                return Err(SmuxConfigError::KeepAliveTimeoutTooSmall);
            }
        }
        if self.max_frame_size <= 0 {
            return Err(SmuxConfigError::MaxFrameSizeNotPositive);
        }
        if self.max_frame_size > 65535 {
            return Err(SmuxConfigError::MaxFrameSizeTooLarge);
        }
        if self.max_receive_buffer <= 0 {
            return Err(SmuxConfigError::MaxReceiveBufferNotPositive);
        }
        if self.max_receive_buffer > i32::MAX as i64 {
            return Err(SmuxConfigError::MaxReceiveBufferTooLarge);
        }
        if self.max_stream_buffer <= 0 {
            return Err(SmuxConfigError::MaxStreamBufferNotPositive);
        }
        if self.max_stream_buffer > self.max_receive_buffer {
            return Err(SmuxConfigError::MaxStreamBufferLargerThanReceiveBuffer);
        }
        if self.max_stream_buffer > i32::MAX as i64 {
            return Err(SmuxConfigError::MaxStreamBufferTooLarge);
        }
        Ok(())
    }
}

/// The configuration for some flags: the keep-alive timeout stays at the default, and a negative
/// keep-alive counts as none.
pub open spec fn flag_config(
    version: i64,
    max_receive_buffer: i64,
    max_stream_buffer: i64,
    max_frame_size: i64,
    keep_alive_seconds: i64,
) -> SmuxConfig {
    SmuxConfig {
        version,
        max_receive_buffer,
        max_stream_buffer,
        max_frame_size,
        keep_alive_interval: (if keep_alive_seconds < 0 {
            0
        } else {
            keep_alive_seconds * SECOND
        }) as u128,
        ..default_config()
    }
}

/// Builds the smux configuration from the `-smuxver`, `-smuxbuf`, `-streambuf`, `-framesize` and
/// `-keepalive` flags and verifies it.
pub fn build_smux_config(
    version: i64,
    max_receive_buffer: i64,
    max_stream_buffer: i64,
    max_frame_size: i64,
    keep_alive_seconds: i64,
) -> (r: Result<SmuxConfig, SmuxConfigError>)
    ensures
        ({
            let cfg = flag_config(
                version,
                max_receive_buffer,
                max_stream_buffer,
                max_frame_size,
                keep_alive_seconds,
            );
            r == (match cfg.fault() {
                Some(e) => Err(e),
                None => Ok(cfg),
            })
        }),
{
    let seconds: u128 = if keep_alive_seconds < 0 {
        0
    } else {
        keep_alive_seconds as u128
    };
    let cfg = SmuxConfig {
        version,
        max_receive_buffer,
        max_stream_buffer,
        max_frame_size,
        keep_alive_interval: seconds * SECOND,
        ..SmuxConfig::default()
    };
    match cfg.verify() {
        Ok(()) => Ok(cfg),
        Err(e) => Err(e),
    }
}

/// Which flags make a configuration: version 1 or 2, a heartbeat every 1 to 30 seconds, which is what
/// the timeout of half a minute allows, frames of 1 to 65535 bytes, a session buffer of 1 to 2147483647
/// bytes, and a stream buffer that fits in it. Each flag is found in the configuration as it was given.
pub proof fn the_flags_of_a_sound_configuration(
    version: i64,
    max_receive_buffer: i64,
    max_stream_buffer: i64,
    max_frame_size: i64,
    keep_alive_seconds: i64,
    r: Result<SmuxConfig, SmuxConfigError>,
)
    requires
        call_ensures(
            build_smux_config,
            (
                version,
                max_receive_buffer,
                max_stream_buffer,
                max_frame_size,
                keep_alive_seconds,
            ),
            r,
        ),
    ensures
        r is Ok <==> {
            &&& 1 <= version <= 2
            &&& 1 <= keep_alive_seconds <= 30
            &&& 1 <= max_frame_size <= 65535
            &&& 1 <= max_receive_buffer <= 2147483647
            &&& 1 <= max_stream_buffer <= max_receive_buffer
        },
        r matches Ok(c) ==> {
            &&& c.version == version
            &&& c.max_receive_buffer == max_receive_buffer
            &&& c.max_stream_buffer == max_stream_buffer
            &&& c.max_frame_size == max_frame_size
            &&& c.keep_alive_interval == keep_alive_seconds * 1_000_000_000
            &&& c.keep_alive_timeout == 30_000_000_000
            &&& !c.keep_alive_disabled
        },
{
}

/// What a configuration is refused for is the first thing that is wrong with it, in this order: the
/// version, the heartbeat, its timeout, the frame size, the session buffer, the stream buffer. A
/// heartbeat that is switched off is not looked at.
pub proof fn the_first_fault_is_reported(c: &SmuxConfig, r: Result<(), SmuxConfigError>)
    requires
        call_ensures(SmuxConfig::verify, (c,), r),
    ensures
        ({
            let version = c.version == 1 || c.version == 2;
            let interval = c.keep_alive_disabled || c.keep_alive_interval > 0;
            let timeout = c.keep_alive_disabled || c.keep_alive_timeout >= c.keep_alive_interval;
            let frame = 0 < c.max_frame_size && c.max_frame_size <= 65535;
            let receive = 0 < c.max_receive_buffer && c.max_receive_buffer <= 2147483647;
            let stream = 0 < c.max_stream_buffer && c.max_stream_buffer <= c.max_receive_buffer;
            &&& r is Ok <==> version && interval && timeout && frame && receive && stream
            &&& r matches Err(e) ==> match e {
                SmuxConfigError::UnsupportedProtocolVersion => !version,
                SmuxConfigError::KeepAliveIntervalNotPositive => version && !interval,
                SmuxConfigError::KeepAliveTimeoutTooSmall => version && interval && !timeout,
                SmuxConfigError::MaxFrameSizeNotPositive => {
                    version && interval && timeout && c.max_frame_size <= 0
                },
                SmuxConfigError::MaxFrameSizeTooLarge => {
                    version && interval && timeout && c.max_frame_size > 65535
                },
                SmuxConfigError::MaxReceiveBufferNotPositive => {
                    version && interval && timeout && frame && c.max_receive_buffer <= 0
                },
                SmuxConfigError::MaxReceiveBufferTooLarge => {
                    version && interval && timeout && frame && c.max_receive_buffer > 2147483647
                },
                SmuxConfigError::MaxStreamBufferNotPositive => {
                    version && interval && timeout && frame && receive && c.max_stream_buffer <= 0
                },
                SmuxConfigError::MaxStreamBufferLargerThanReceiveBuffer => {
                    version && interval && timeout && frame && receive && c.max_stream_buffer
                        > c.max_receive_buffer
                },
                SmuxConfigError::MaxStreamBufferTooLarge => false,
            }
        }),
{
}

} // verus!
