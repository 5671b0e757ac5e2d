//! The session controller: which transport is live, how many bytes went
//! either way and how fast, when an automatic send is due, and what happens
//! to the bytes that arrive.
//!
//! The controller performs no input or output. The caller opens and closes
//! the transports, reads the clock, and reports what happened; the
//! controller keeps the state and says what to do next. Times are
//! milliseconds on the caller's monotonic clock.
//!
//! The controller does not stop a caller from switching between serial and
//! TCP mode while the other transport is still live: close or disconnect
//! first.

use crate::config::{check_open, open_check, ConfigError, DataBits, Parity, StopBits, DEFAULT_BAUD};
use crate::frame::{fed, kept, payloads_of, scan, FrameAssembler, DEFAULT_CAPACITY};
use crate::utils::{hex_bytes, hex_to_bytes};
use vstd::prelude::*;
use vstd::string::StringSliceAdditionalSpecFns;

verus! {

/// Shortest time over which a transfer rate is taken.
pub const RATE_WINDOW_MS: u64 = 1000;

/// The interval between automatic sends at start.
pub const DEFAULT_SEND_INTERVAL_MS: u64 = 1000;

/// Shortest interval between automatic sends.
pub const MIN_SEND_INTERVAL_MS: u64 = 1;

/// Longest interval between automatic sends.
pub const MAX_SEND_INTERVAL_MS: u64 = 600000;

/// Milliseconds from `then` to `now`; zero if `now` is not later.
pub open spec fn elapsed(now_ms: u64, then_ms: u64) -> u64 {
    if now_ms >= then_ms {
        (now_ms - then_ms) as u64
    } else {
        0
    }
}

/// Bytes per second, rounded down, when `bytes` bytes took `elapsed_ms` milliseconds.
pub open spec fn rate_over(bytes: nat, elapsed_ms: nat) -> nat
    recommends
        elapsed_ms > 0,
{
    bytes * 1000 / elapsed_ms
}

/// `count` more than `total`, or the largest value if that does not fit.
pub open spec fn bumped(total: usize, count: usize) -> usize {
    if total + count > usize::MAX {
        usize::MAX
    } else {
        (total + count) as usize
    }
}

/// Byte counters and the transfer rate.
#[derive(Clone, Copy, Debug, PartialEq, Eq, Structural)]
pub struct Traffic {
    /// Bytes received since the counter was last reset.
    pub received: usize,
    /// Bytes sent since the counter was last reset.
    pub sent: usize,
    /// Bytes that went either way since the current rate window began.
    pub window_bytes: usize,
    /// When the current rate window began.
    pub window_start_ms: u64,
    /// The rate over the last completed window, in bytes per second.
    pub bytes_per_second: usize,
}

impl Traffic {
    /// The counters after `count` bytes arrived.
    pub open spec fn after_received(self, count: usize) -> Traffic {
        Traffic {
            received: bumped(self.received, count),
            window_bytes: bumped(self.window_bytes, count),
            ..self
        }
    }

    /// The counters after `count` bytes were written.
    pub open spec fn after_sent(self, count: usize) -> Traffic {
        Traffic {
            sent: bumped(self.sent, count),
            window_bytes: bumped(self.window_bytes, count),
            ..self
        }
    }

    /// The counters after a look at the clock: once the window has lasted
    /// `RATE_WINDOW_MS` or more, the rate becomes the window's bytes over the
    /// window's duration, and a new window begins with nothing counted.
    pub open spec fn after_rate_update(self, now_ms: u64) -> Traffic {
        if elapsed(now_ms, self.window_start_ms) >= RATE_WINDOW_MS {
            Traffic {
                bytes_per_second: rate_over(
                    self.window_bytes as nat,
                    elapsed(now_ms, self.window_start_ms) as nat,
                ) as usize,
                window_bytes: 0,
                window_start_ms: now_ms,
                ..self
            }
        } else {
            self
        }
    }

    /// The counters after the transport was closed.
    pub open spec fn after_close(self) -> Traffic {
        Traffic { received: 0, sent: 0, bytes_per_second: 0, ..self }
    }

    /// All counters at zero, the first rate window beginning at `now_ms`.
    pub fn new(now_ms: u64) -> (traffic: Traffic)
        ensures
            traffic == (Traffic {
                received: 0,
                sent: 0,
                window_bytes: 0,
                window_start_ms: now_ms,
                bytes_per_second: 0,
            }),
    {
        Traffic { received: 0, sent: 0, window_bytes: 0, window_start_ms: now_ms, bytes_per_second: 0 }
    }

    /// Counts `count` received bytes.
    pub fn count_received(&mut self, count: usize)
        ensures
            *final(self) == old(self).after_received(count),
    {
        self.received = self.received.saturating_add(count);
        self.window_bytes = self.window_bytes.saturating_add(count);
    }

    /// Counts `count` sent bytes.
    pub fn count_sent(&mut self, count: usize)
        ensures
            *final(self) == old(self).after_sent(count),
    {
        self.sent = self.sent.saturating_add(count);
        self.window_bytes = self.window_bytes.saturating_add(count);
    }

    /// Recomputes the rate if the current window has lasted long enough.
    pub fn update_transfer_rate(&mut self, now_ms: u64)
        ensures
            *final(self) == old(self).after_rate_update(now_ms),
            final(self).bytes_per_second <= old(self).window_bytes || *final(self) == *old(self),
    {
        if now_ms < self.window_start_ms {
            return ;
        }
        let span: u64 = now_ms - self.window_start_ms;
        if span >= RATE_WINDOW_MS {
            let scaled: u128 = self.window_bytes as u128 * 1000;
            let rate: u128 = scaled / span as u128;
            assert(rate <= self.window_bytes) by (nonlinear_arith)
                requires
                    rate == (self.window_bytes as int * 1000) / (span as int),
                    span >= 1000,
                    self.window_bytes >= 0,
            ;
            self.bytes_per_second = rate as usize;
            self.window_bytes = 0;
            self.window_start_ms = now_ms;
        }
    }

    /// Puts the received counter back to zero.
    pub fn clear_received(&mut self)
        ensures
            *final(self) == (Traffic { received: 0, ..*old(self) }),
    {
        self.received = 0;
    }

    /// Puts the sent counter back to zero.
    pub fn clear_sent(&mut self)
        ensures
            *final(self) == (Traffic { sent: 0, ..*old(self) }),
    {
        self.sent = 0;
    }

    /// Puts the counters and the rate back to zero, as a close does.
    pub fn reset(&mut self)
        ensures
            *final(self) == old(self).after_close(),
    {
        self.received = 0;
        self.sent = 0;
        self.bytes_per_second = 0;
    }
}

/// The timer of the automatic send.
#[derive(Clone, Copy, Debug, PartialEq, Eq, Structural)]
pub struct AutoSend {
    /// The user asked for automatic sends.
    pub enabled: bool,
    /// A first send was made by hand since automatic sending was asked for.
    pub armed: bool,
    /// Time between two sends.
    pub interval_ms: u64,
    /// When the last send was attempted.
    pub last_send_ms: u64,
}

/// `ms` brought into the range of allowed send intervals.
pub open spec fn clamped_interval(ms: u64) -> u64 {
    if ms < MIN_SEND_INTERVAL_MS {
        MIN_SEND_INTERVAL_MS
    } else if ms > MAX_SEND_INTERVAL_MS {
        MAX_SEND_INTERVAL_MS
    } else {
        ms
    }
}

impl AutoSend {
    /// An automatic send is due: it is enabled and armed, and the interval
    /// has passed since the last send.
    pub open spec fn due(self, now_ms: u64) -> bool {
        self.enabled && self.armed && elapsed(now_ms, self.last_send_ms) >= self.interval_ms
    }

    /// Automatic sending switched off, the default interval, the last send at `now_ms`.
    pub fn new(now_ms: u64) -> (timer: AutoSend)
        ensures
            timer == (AutoSend {
                enabled: false,
                armed: false,
                interval_ms: DEFAULT_SEND_INTERVAL_MS,
                last_send_ms: now_ms,
            }),
    {
        AutoSend {
            enabled: false,
            armed: false,
            interval_ms: DEFAULT_SEND_INTERVAL_MS,
            last_send_ms: now_ms,
        }
    }

    /// Switches automatic sending on or off. Switching it off disarms it.
    pub fn set_enabled(&mut self, on: bool)
        ensures
            *final(self) == (AutoSend { enabled: on, armed: on && old(self).armed, ..*old(self) }),
    {
        self.enabled = on;
        if !on {
            self.armed = false;
        }
    }

    /// Sets the interval, brought into the allowed range.
    pub fn set_interval(&mut self, ms: u64)
        ensures
            *final(self) == (AutoSend { interval_ms: clamped_interval(ms), ..*old(self) }),
    {
        if ms < MIN_SEND_INTERVAL_MS {
            self.interval_ms = MIN_SEND_INTERVAL_MS;
        } else if ms > MAX_SEND_INTERVAL_MS {
            self.interval_ms = MAX_SEND_INTERVAL_MS;
        } else {
            self.interval_ms = ms;
        }
    }

    /// Whether an automatic send is due at `now_ms`.
    pub fn is_due(&self, now_ms: u64) -> (due: bool)
        ensures
            due == self.due(now_ms),
    {
        self.enabled && self.armed && now_ms.saturating_sub(self.last_send_ms) >= self.interval_ms
    }

    /// Notes a send made by hand at `now_ms`: the interval starts anew, and
    /// automatic sending, if enabled, is armed.
    pub fn note_manual_send(&mut self, now_ms: u64)
        ensures
            *final(self) == (AutoSend {
                last_send_ms: now_ms,
                armed: old(self).armed || old(self).enabled,
                ..*old(self)
            }),
    {
        self.last_send_ms = now_ms;
        if self.enabled {
            self.armed = true;
        }
    }

    /// Notes an automatic send attempted at `now_ms`: the interval starts
    /// anew. Whether the send succeeded plays no part, and nothing is disarmed.
    pub fn note_auto_send(&mut self, now_ms: u64)
        ensures
            *final(self) == (AutoSend { last_send_ms: now_ms, ..*old(self) }),
    {
        self.last_send_ms = now_ms;
    }
}

/// The transport a send goes to.
#[derive(Clone, Copy, Debug, PartialEq, Eq, Structural)]
pub enum Route {
    Serial,
    Tcp,
}

/// Which mode is chosen and which transports are live.
#[derive(Clone, Copy, Debug, PartialEq, Eq, Structural)]
pub struct Link {
    /// TCP mode is chosen (otherwise serial mode).
    pub tcp_enabled: bool,
    /// A serial port is open.
    pub port_open: bool,
    /// A TCP connection is up.
    pub tcp_connected: bool,
}

impl Link {
    /// Where an automatic send goes: to the socket in TCP mode with a
    /// connection up, else to the serial port if one is open, else nowhere.
    pub open spec fn auto_route(self) -> Option<Route> {
        if self.tcp_enabled && self.tcp_connected {
            Some(Route::Tcp)
        } else if self.port_open {
            Some(Route::Serial)
        } else {
            None
        }
    }

    /// Where a send made by hand goes: to the transport of the chosen mode,
    /// if it is live.
    pub open spec fn manual_route(self) -> Option<Route> {
        if self.tcp_enabled {
            if self.tcp_connected {
                Some(Route::Tcp)
            } else {
                None
            }
        } else if self.port_open {
            Some(Route::Serial)
        } else {
            None
        }
    }

    /// Whether a tick reads from the socket: whenever a connection is up.
    pub fn polls_socket(&self) -> (polls: bool)
        ensures
            polls == self.tcp_connected,
    {
        self.tcp_connected
    }

    /// Whether a tick drains the inbox of the serial reader: in serial mode.
    pub fn drains_inbox(&self) -> (drains: bool)
        ensures
            drains == !self.tcp_enabled,
    {
        !self.tcp_enabled
    }

    /// Where an automatic send goes.
    pub fn route_auto(&self) -> (route: Option<Route>)
        ensures
            route == self.auto_route(),
    {
        if self.tcp_enabled && self.tcp_connected {
            Some(Route::Tcp)
        } else if self.port_open {
            Some(Route::Serial)
        } else {
            None
        }
    }

    /// Where a send made by hand goes.
    pub fn route_manual(&self) -> (route: Option<Route>)
        ensures
            route == self.manual_route(),
    {
        if self.tcp_enabled {
            if self.tcp_connected {
                Some(Route::Tcp)
            } else {
                None
            }
        } else if self.port_open {
            Some(Route::Serial)
        } else {
            None
        }
    }
}

/// What the user has chosen.
#[derive(Clone, Copy, Debug, PartialEq, Eq, Structural)]
pub struct Settings {
    /// The selected baud rate; `CUSTOM_BAUD` asks for the custom text.
    pub selected_baud: u32,
    pub data_bits: DataBits,
    pub stop_bits: StopBits,
    pub parity: Parity,
    /// The text to send is hexadecimal.
    pub is_hex_send: bool,
    /// Received bytes are shown as hexadecimal.
    pub is_hex_display: bool,
    /// Received bytes are assembled into frames for plotting.
    pub plot_visible: bool,
}

/// What has to be done to open a serial port, once the request has passed the checks.
#[derive(Clone, Copy, Debug, PartialEq, Eq, Structural)]
pub struct OpenPlan {
    /// The baud rate to open with.
    pub baud: u32,
    /// A port is still open: stop its reader and release it first.
    pub release_previous: bool,
}

/// What one non-blocking read from the socket came to.
pub enum SocketRead {
    /// The peer sent these bytes.
    Bytes(Vec<u8>),
    /// Nothing is there at the moment.
    WouldBlock,
    /// The peer closed the connection (a read of zero bytes).
    Closed,
    /// The read failed for another reason.
    Fault,
}

/// The state of one terminal session.
pub struct SerialAssistant {
    pub link: Link,
    pub settings: Settings,
    pub traffic: Traffic,
    pub auto_send: AutoSend,
    pub assembler: FrameAssembler,
}

impl Default for SerialAssistant {
    /// A session at start, with the clock at zero.
    fn default() -> (session: SerialAssistant)
        ensures
            session.fresh(0),
    {
        SerialAssistant::new(0)
    }
}

/// The bytes that `text` stands for when it is sent: the bytes it writes in
/// hexadecimal, or its UTF-8 encoding.
pub open spec fn outgoing_bytes(text: &str, hex: bool) -> Seq<u8> {
    if hex {
        hex_bytes(text@)
    } else {
        text.spec_bytes()
    }
}

/// The bytes to send for the text `text`.
pub fn encode_outgoing(text: &str, hex: bool) -> (bytes: Vec<u8>)
    ensures
        bytes@ == outgoing_bytes(text, hex),
{
    if hex {
        hex_to_bytes(text)
    } else {
        text.as_bytes_vec()
    }
}

impl SerialAssistant {
    /// The session is as it is at start, with the clock at `now_ms`: serial
    /// mode, nothing open, the default settings, automatic sending off, all
    /// counters at zero and an empty frame buffer.
    pub open spec fn fresh(self, now_ms: u64) -> bool {
        &&& self.link == (Link { tcp_enabled: false, port_open: false, tcp_connected: false })
        &&& self.settings == (Settings {
            selected_baud: DEFAULT_BAUD,
            data_bits: DataBits::Eight,
            stop_bits: StopBits::One,
            parity: Parity::Off,
            is_hex_send: false,
            is_hex_display: false,
            plot_visible: false,
        })
        &&& self.traffic == (Traffic {
            received: 0,
            sent: 0,
            window_bytes: 0,
            window_start_ms: now_ms,
            bytes_per_second: 0,
        })
        &&& self.auto_send == (AutoSend {
            enabled: false,
            armed: false,
            interval_ms: DEFAULT_SEND_INTERVAL_MS,
            last_send_ms: now_ms,
        })
        &&& self.assembler@ == Seq::<u8>::empty()
        &&& self.assembler.limit() == DEFAULT_CAPACITY
    }

    /// A session at start, with the clock at `now_ms`.
    pub fn new(now_ms: u64) -> (session: SerialAssistant)
        ensures
            session.fresh(now_ms),
    {
        SerialAssistant {
            link: Link { tcp_enabled: false, port_open: false, tcp_connected: false },
            settings: Settings {
                selected_baud: DEFAULT_BAUD,
                data_bits: DataBits::Eight,
                stop_bits: StopBits::One,
                parity: Parity::Off,
                is_hex_send: false,
                is_hex_display: false,
                plot_visible: false,
            },
            traffic: Traffic::new(now_ms),
            auto_send: AutoSend::new(now_ms),
            assembler: FrameAssembler::new(),
        }
    }

    /// Checks a request to open the serial device `port`. Nothing changes;
    /// on success the plan says what to do.
    pub fn open_port(&self, port: &str, custom_baud: &str, listed: &[String]) -> (plan: Result<
        OpenPlan,
        ConfigError,
    >)
        ensures
            match open_check(port@, self.settings.selected_baud, custom_baud@, listed@) {
                Ok(baud) => plan == Ok::<OpenPlan, ConfigError>(
                    OpenPlan { baud, release_previous: self.link.port_open },
                ),
                Err(e) => plan == Err::<OpenPlan, ConfigError>(e),
            },
            plan is Ok ==> plan->Ok_0.baud > 0,
    {
        match check_open(port, self.settings.selected_baud, custom_baud, listed) {
            Ok(baud) => Ok(OpenPlan { baud, release_previous: self.link.port_open }),
            Err(e) => Err(e),
        }
    }

    /// Takes note of how the attempt to open the port ended. The previous
    /// port, if any, has been released by now, so the port is open exactly
    /// if the attempt succeeded; on success the plan's baud rate becomes the
    /// selected one. Returns `opened`.
    pub fn finish_open(&mut self, plan: OpenPlan, opened: bool) -> (ok: bool)
        ensures
            ok == opened,
            final(self).link == (Link { port_open: opened, ..old(self).link }),
            final(self).settings == if opened {
                Settings { selected_baud: plan.baud, ..old(self).settings }
            } else {
                old(self).settings
            },
            final(self).traffic == old(self).traffic,
            final(self).auto_send == old(self).auto_send,
            final(self).assembler == old(self).assembler,
    {
        self.link.port_open = opened;
        if opened {
            self.settings.selected_baud = plan.baud;
        }
        opened
    }

    /// How `close_port` relates the session before it, the session after it
    /// and its result: with a port open the port is closed, the counters and
    /// the rate go back to zero and the pending bytes are dropped; with no
    /// port open nothing changes.
    pub open spec fn close_effect(pre: SerialAssistant, post: SerialAssistant, closed: bool) -> bool {
        &&& closed == pre.link.port_open
        &&& !closed ==> post == pre
        &&& closed ==> post.link == (Link { port_open: false, ..pre.link })
        &&& closed ==> post.traffic == pre.traffic.after_close()
        &&& closed ==> post.assembler@ == Seq::<u8>::empty()
        &&& post.assembler.limit() == pre.assembler.limit()
        &&& post.settings == pre.settings
        &&& post.auto_send == pre.auto_send
    }

    /// Closing twice is closing once: the second close reports that nothing
    /// was open and leaves the session as the first close left it.
    pub proof fn lemma_close_twice(first: SerialAssistant, second: SerialAssistant, third: SerialAssistant, a: bool, b: bool)
        requires
            SerialAssistant::close_effect(first, second, a),
            SerialAssistant::close_effect(second, third, b),
        ensures
            !b,
            third == second,
    {
    }

    /// Closes the serial port in the books.
    ///
    /// With a port open, returns `true`: the caller stops the reader, waits
    /// the grace period and releases the port; the counters and the rate go
    /// back to zero and the pending bytes are dropped. With no port open,
    /// returns `false` and changes nothing.
    pub fn close_port(&mut self) -> (closed: bool)
        ensures
            SerialAssistant::close_effect(*old(self), *final(self), closed),
    {
        if !self.link.port_open {
            return false;
        }
        self.link.port_open = false;
        self.traffic.reset();
        self.assembler.clear();
        true
    }

    /// Takes note of how the attempt to connect the socket ended: on
    /// success the connection is up, otherwise nothing changes. Returns
    /// `connected`.
    pub fn connect_tcp(&mut self, connected: bool) -> (ok: bool)
        ensures
            ok == connected,
            final(self).link == (Link {
                tcp_connected: connected || old(self).link.tcp_connected,
                ..old(self).link
            }),
            final(self).settings == old(self).settings,
            final(self).traffic == old(self).traffic,
            final(self).auto_send == old(self).auto_send,
            final(self).assembler == old(self).assembler,
    {
        if connected {
            self.link.tcp_connected = true;
        }
        connected
    }

    /// Takes the connection down in the books; harmless without one.
    pub fn disconnect_tcp(&mut self)
        ensures
            final(self).link == (Link { tcp_connected: false, ..old(self).link }),
            final(self).settings == old(self).settings,
            final(self).traffic == old(self).traffic,
            final(self).auto_send == old(self).auto_send,
            final(self).assembler == old(self).assembler,
    {
        self.link.tcp_connected = false;
    }

    /// Handles one read from the socket: bytes are handed on, an empty
    /// moment changes nothing, and a closed or failed connection is taken
    /// down. Returns the bytes that arrived.
    pub fn accept_socket_read(&mut self, read: SocketRead) -> (data: Vec<u8>)
        ensures
            data@ == if read is Bytes {
                read->Bytes_0@
            } else {
                Seq::<u8>::empty()
            },
            final(self).link == (Link {
                tcp_connected: old(self).link.tcp_connected && !(read is Closed || read is Fault),
                ..old(self).link
            }),
            final(self).settings == old(self).settings,
            final(self).traffic == old(self).traffic,
            final(self).auto_send == old(self).auto_send,
            final(self).assembler == old(self).assembler,
    {
        match read {
            SocketRead::Bytes(bytes) => bytes,
            SocketRead::WouldBlock => Vec::new(),
            SocketRead::Closed => {
                self.link.tcp_connected = false;
                Vec::new()
            },
            SocketRead::Fault => {
                self.link.tcp_connected = false;
                Vec::new()
            },
        }
    }

    /// Takes in the bytes that the consumer drained from the inbox or read
    /// from the socket.
    ///
    /// They are counted as received and appended to the pending bytes. With
    /// plotting on, every frame that is now complete is extracted and the
    /// payloads of the valid ones are returned in arrival order; with
    /// plotting off nothing is extracted. Either way nothing stays pending
    /// once more bytes than the assembler's limit have piled up without a
    /// valid frame among them.
    pub fn process_received_data(&mut self, data: &[u8]) -> (payloads: Vec<Vec<u8>>)
        ensures
            final(self).traffic == old(self).traffic.after_received(data@.len() as usize),
            payloads_of(payloads@) == if old(self).settings.plot_visible {
                scan(old(self).assembler@ + data@).0
            } else {
                Seq::<Seq<u8>>::empty()
            },
            final(self).assembler@ == if old(self).settings.plot_visible {
                fed(old(self).assembler@, data@, old(self).assembler.limit())
            } else {
                kept(old(self).assembler@ + data@, old(self).assembler.limit())
            },
            final(self).assembler.limit() == old(self).assembler.limit(),
            final(self).assembler.wf(),
            final(self).link == old(self).link,
            final(self).settings == old(self).settings,
            final(self).auto_send == old(self).auto_send,
    {
        self.traffic.count_received(data.len());
        if self.settings.plot_visible {
            self.assembler.feed(data)
        } else {
            self.assembler.hold(data);
            let payloads: Vec<Vec<u8>> = Vec::new();
            assert(payloads_of(payloads@) =~= Seq::<Seq<u8>>::empty());
            payloads
        }
    }

    /// Recomputes the transfer rate if the current window has lasted long
    /// enough; see `Traffic::after_rate_update`.
    pub fn update_transfer_rate(&mut self, now_ms: u64)
        ensures
            final(self).traffic == old(self).traffic.after_rate_update(now_ms),
            final(self).link == old(self).link,
            final(self).settings == old(self).settings,
            final(self).auto_send == old(self).auto_send,
            final(self).assembler == old(self).assembler,
    {
        self.traffic.update_transfer_rate(now_ms);
    }

    /// The bytes to send for the text `text`, read as the settings say.
    pub fn outgoing(&self, text: &str) -> (bytes: Vec<u8>)
        ensures
            bytes@ == outgoing_bytes(text, self.settings.is_hex_send),
    {
        encode_outgoing(text, self.settings.is_hex_send)
    }

    /// Whether an automatic send is due at `now_ms`.
    pub fn auto_send_due(&self, now_ms: u64) -> (due: bool)
        ensures
            due == self.auto_send.due(now_ms),
    {
        self.auto_send.is_due(now_ms)
    }

    /// Takes note of a send attempted at `now_ms`; `written` is the number
    /// of bytes the transport took, or `None` if there was no transport or
    /// the write failed, which counts as zero bytes.
    ///
    /// The interval of the automatic send starts anew. A send made by hand
    /// arms automatic sending if it is enabled; no outcome disarms it.
    /// Returns whether bytes were handed to the transport, which is when the
    /// send belongs in the log.
    pub fn record_send(&mut self, written: Option<usize>, manual: bool, now_ms: u64) -> (done: bool)
        ensures
            done == written is Some,
            final(self).traffic == match written {
                Some(n) => old(self).traffic.after_sent(n),
                None => old(self).traffic,
            },
            final(self).auto_send == (AutoSend {
                last_send_ms: now_ms,
                armed: old(self).auto_send.armed || (manual && old(self).auto_send.enabled),
                ..old(self).auto_send
            }),
            final(self).link == old(self).link,
            final(self).settings == old(self).settings,
            final(self).assembler == old(self).assembler,
    {
        if manual {
            self.auto_send.note_manual_send(now_ms);
        } else {
            self.auto_send.note_auto_send(now_ms);
        }
        match written {
            Some(n) => {
                self.traffic.count_sent(n);
                true
            },
            None => false,
        }
    }
}

} // verus!
