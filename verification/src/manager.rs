//! The connection manager: owns one broadcaster and the tick logic of its
//! two recurring background schedules. The non-terminating loops themselves
//! — sleeping, reconnecting, supervision — belong to the embedding runtime;
//! each call here is the decision and delivery work of one tick.

use vstd::prelude::*;

use crate::broadcaster::Broadcaster;
use crate::rotation::{rotated, selected_front};
use crate::key::{keys_view, ConnectionKey};
use crate::message::{BroadcastError, Message};

verus! {

/// Default seconds between two rotated report ticks.
pub const DEFAULT_REPORT_INTERVAL_SECS: u64 = 60;

/// Default number of connections asked for reports per tick.
pub const DEFAULT_REPORT_BATCH_SIZE: usize = 100;

/// Default seconds between two liveness probes; probing runs on a shorter
/// leash than reporting.
pub const DEFAULT_KEEP_ALIVE_INTERVAL_SECS: u64 = 10;

/// Timing and sizing of the recurring schedules: plain values supplied from
/// outside, never computed by the core.
pub struct ScheduleConfig {
    /// Seconds between two rotated report ticks.
    pub report_interval_secs: u64,
    /// How many connections one report tick selects.
    pub report_batch_size: usize,
    /// Seconds between two liveness probes on the global channel.
    pub keep_alive_interval_secs: u64,
}

impl ScheduleConfig {
    pub fn new(
        report_interval_secs: u64,
        report_batch_size: usize,
        keep_alive_interval_secs: u64,
    ) -> (config: Self)
        ensures
            config.report_interval_secs == report_interval_secs,
            config.report_batch_size == report_batch_size,
            config.keep_alive_interval_secs == keep_alive_interval_secs,
    {
        ScheduleConfig { report_interval_secs, report_batch_size, keep_alive_interval_secs }
    }
}

impl Default for ScheduleConfig {
    /// Report from 100 connections every 60 seconds, probe liveness every
    /// 10 seconds.
    fn default() -> (config: Self)
        ensures
            config.report_interval_secs == DEFAULT_REPORT_INTERVAL_SECS,
            config.report_batch_size == DEFAULT_REPORT_BATCH_SIZE,
            config.keep_alive_interval_secs == DEFAULT_KEEP_ALIVE_INTERVAL_SECS,
    {
        ScheduleConfig {
            report_interval_secs: DEFAULT_REPORT_INTERVAL_SECS,
            report_batch_size: DEFAULT_REPORT_BATCH_SIZE,
            keep_alive_interval_secs: DEFAULT_KEEP_ALIVE_INTERVAL_SECS,
        }
    }
}

/// Owns a broadcaster and the per-tick logic of the report and liveness
/// schedules.
pub struct ConnectionManager {
    /// The delivery subsystem the schedules drive. Connection handlers
    /// subscribe and unsubscribe through it.
    pub broadcaster: Broadcaster,
    /// How often and how widely the schedules act.
    pub config: ScheduleConfig,
}

impl ConnectionManager {
    /// A manager around a fresh, empty broadcaster, with the default
    /// schedule configuration.
    pub fn new() -> (manager: Self)
        ensures
            manager.broadcaster.wf(),
            manager.broadcaster@.queue.len() == 0,
            manager.config.report_interval_secs == DEFAULT_REPORT_INTERVAL_SECS,
            manager.config.report_batch_size == DEFAULT_REPORT_BATCH_SIZE,
            manager.config.keep_alive_interval_secs == DEFAULT_KEEP_ALIVE_INTERVAL_SECS,
    {
        ConnectionManager { broadcaster: Broadcaster::new(), config: ScheduleConfig::default() }
    }

    /// The fixed message set one report tick asks each selected connection
    /// for: an uptime report and a bandwidth report.
    pub fn report_messages() -> (messages: Vec<Message>)
        ensures
            messages@ == seq![Message::RequestUptimeReport, Message::RequestBandwidthReport],
    {
        let mut messages: Vec<Message> = Vec::new();
        messages.push(Message::RequestUptimeReport);
        messages.push(Message::RequestBandwidthReport);
        proof {
            assert(messages@ =~= seq![
                Message::RequestUptimeReport,
                Message::RequestBandwidthReport,
            ]);
        }
        messages
    }

    /// One tick of the fairness-rotated report schedule: rotates the queue
    /// by the configured batch size, sends `messages` to each selected
    /// connection best-effort, and returns which connections were chosen.
    /// Ticking spreads report load over the population instead of asking
    /// everyone at once.
    pub fn report_tick(&mut self, messages: &Vec<Message>) -> (selected: Vec<ConnectionKey>)
        requires
            old(self).broadcaster.wf(),
        ensures
            final(self).broadcaster.wf(),
            final(self).config == old(self).config,
            keys_view(selected@) == selected_front(
                old(self).broadcaster@.queue,
                old(self).config.report_batch_size as nat,
            ),
            final(self).broadcaster@.queue == rotated(
                old(self).broadcaster@.queue,
                old(self).config.report_batch_size as nat,
            ),
            final(self).broadcaster@.sockets == old(self).broadcaster@.sockets,
    {
        let count = self.config.report_batch_size;
        self.broadcaster.queue_multiple(messages, count)
    }

    /// One tick of the liveness schedule: publishes a probe on the global
    /// channel so every connection handler can reset its own idle timer. A
    /// success reports how many handlers observed the probe, at least one;
    /// with no handler listening the tick signals `NoReceivers`.
    pub fn keep_alive_tick(&self) -> (delivered: Result<usize, BroadcastError>)
        ensures
            delivered matches Ok(receivers) ==> receivers >= 1,
    {
        self.broadcaster.broadcast(Message::Ping)
    }
}

} // verus!
