//! Counters for diagnosing data path bottlenecks.

use vstd::prelude::*;

use std::sync::Arc;

use crate::stack::channels::SendOutcome;
use crate::text;

verus! {

/// Counters of frames and packets at every point where data can be dropped.
#[derive(Debug)]
pub struct TunnelStats {
    /// Frames received from proxy via IPC
    pub ipc_rx_frames: u64,
    /// Frames dropped by IPC reader (channel full)
    pub ipc_rx_dropped: u64,
    /// Frames sent to proxy via IPC
    pub ipc_tx_frames: u64,
    /// Frames dropped by IPC writer (write error)
    pub ipc_tx_errors: u64,
    /// Frames received from channel by the device
    pub device_rx_frames: u64,
    /// Frames transmitted by the device
    pub device_tx_frames: u64,
    /// Frames dropped by the device (channel full)
    pub device_tx_dropped: u64,
    /// UDP packets sent from the application to the stack
    pub udp_tx_packets: u64,
    /// UDP packets that the stack rejected
    pub udp_tx_failed: u64,
    /// UDP packets delivered from the stack to the application
    pub udp_rx_packets: u64,
    /// UDP packets dropped (channel full)
    pub udp_rx_dropped: u64,
}

/// Point-in-time snapshot of tunnel statistics.
#[derive(Clone, Copy, Debug, PartialEq, Eq, Structural)]
pub struct TunnelStatsSnapshot {
    pub ipc_rx_frames: u64,
    pub ipc_rx_dropped: u64,
    pub ipc_tx_frames: u64,
    pub ipc_tx_errors: u64,
    pub device_rx_frames: u64,
    pub device_tx_frames: u64,
    pub device_tx_dropped: u64,
    pub udp_tx_packets: u64,
    pub udp_tx_failed: u64,
    pub udp_rx_packets: u64,
    pub udp_rx_dropped: u64,
}

/// Something that is counted on the way between the application and the proxy.
#[derive(Clone, Copy, Debug, PartialEq, Eq, Structural)]
pub enum Event {
    /// A frame came from the proxy.
    FrameReceived,
    /// A frame from the proxy found the channel full.
    FrameDropped,
    /// A frame was sent to the proxy.
    FrameSent,
    /// A frame could not be sent to the proxy.
    FrameLost,
    /// The device took a frame from its channel.
    DeviceReceived,
    /// The device handed a frame to its channel.
    DeviceSent,
    /// A frame from the device found the channel full.
    DeviceDropped,
    /// A UDP socket was given a packet of the application, whether or not it took
    /// it.
    UdpSent,
    /// A UDP socket refused a packet of the application.
    UdpRefused,
    /// A packet was taken from a UDP socket for the application.
    UdpReceived,
    /// A packet for the application was dropped because the channel was full. The
    /// stack leaves packets in the socket until there is a place for them.
    UdpDropped,
}

/// No counter has counted anything.
pub open spec fn zeros() -> TunnelStatsSnapshot {
    TunnelStatsSnapshot {
        ipc_rx_frames: 0,
        ipc_rx_dropped: 0,
        ipc_tx_frames: 0,
        ipc_tx_errors: 0,
        device_rx_frames: 0,
        device_tx_frames: 0,
        device_tx_dropped: 0,
        udp_tx_packets: 0,
        udp_tx_failed: 0,
        udp_rx_packets: 0,
        udp_rx_dropped: 0,
    }
}

/// One more; after the largest number comes zero.
pub open spec fn next_count(count: u64) -> u64 {
    if count == u64::MAX {
        0
    } else {
        (count + 1) as u64
    }
}

impl TunnelStats {
    pub open spec fn counts(&self) -> TunnelStatsSnapshot {
        TunnelStatsSnapshot {
            ipc_rx_frames: self.ipc_rx_frames,
            ipc_rx_dropped: self.ipc_rx_dropped,
            ipc_tx_frames: self.ipc_tx_frames,
            ipc_tx_errors: self.ipc_tx_errors,
            device_rx_frames: self.device_rx_frames,
            device_tx_frames: self.device_tx_frames,
            device_tx_dropped: self.device_tx_dropped,
            udp_tx_packets: self.udp_tx_packets,
            udp_tx_failed: self.udp_tx_failed,
            udp_rx_packets: self.udp_rx_packets,
            udp_rx_dropped: self.udp_rx_dropped,
        }
    }

    /// Create a new stats instance wrapped in Arc for sharing.
    pub fn new_shared() -> (stats: Arc<Self>)
        ensures
            stats.counts() == zeros(),
    {
        Arc::new(Self::default())
    }

    /// Get a snapshot of all counters.
    pub fn snapshot(&self) -> (snapshot: TunnelStatsSnapshot)
        ensures
            snapshot == self.counts(),
    {
        TunnelStatsSnapshot {
            ipc_rx_frames: self.ipc_rx_frames,
            ipc_rx_dropped: self.ipc_rx_dropped,
            ipc_tx_frames: self.ipc_tx_frames,
            ipc_tx_errors: self.ipc_tx_errors,
            device_rx_frames: self.device_rx_frames,
            device_tx_frames: self.device_tx_frames,
            device_tx_dropped: self.device_tx_dropped,
            udp_tx_packets: self.udp_tx_packets,
            udp_tx_failed: self.udp_tx_failed,
            udp_rx_packets: self.udp_rx_packets,
            udp_rx_dropped: self.udp_rx_dropped,
        }
    }

    /// Count an event.
    pub fn record(&mut self, event: Event)
        ensures
            final(self).counts() == old(self).counts().after(event),
    {
        match event {
            Event::FrameReceived => {
                self.ipc_rx_frames = self.ipc_rx_frames.wrapping_add(1);
            },
            Event::FrameDropped => {
                self.ipc_rx_dropped = self.ipc_rx_dropped.wrapping_add(1);
            },
            Event::FrameSent => {
                self.ipc_tx_frames = self.ipc_tx_frames.wrapping_add(1);
            },
            Event::FrameLost => {
                self.ipc_tx_errors = self.ipc_tx_errors.wrapping_add(1);
            },
            Event::DeviceReceived => {
                self.device_rx_frames = self.device_rx_frames.wrapping_add(1);
            },
            Event::DeviceSent => {
                self.device_tx_frames = self.device_tx_frames.wrapping_add(1);
            },
            Event::DeviceDropped => {
                self.device_tx_dropped = self.device_tx_dropped.wrapping_add(1);
            },
            Event::UdpSent => {
                self.udp_tx_packets = self.udp_tx_packets.wrapping_add(1);
            },
            Event::UdpRefused => {
                self.udp_tx_failed = self.udp_tx_failed.wrapping_add(1);
            },
            Event::UdpReceived => {
                self.udp_rx_packets = self.udp_rx_packets.wrapping_add(1);
            },
            Event::UdpDropped => {
                self.udp_rx_dropped = self.udp_rx_dropped.wrapping_add(1);
            },
        }
    }
}

impl TunnelStats {
    /// Take note of a frame that the device was to transmit, given what came of
    /// handing it to the channel.
    pub fn frame_transmitted(&mut self, outcome: SendOutcome)
        ensures
            final(self).counts() == match outcome {
                SendOutcome::Sent => old(self).counts().after(Event::DeviceSent),
                SendOutcome::Full => old(self).counts().after(Event::DeviceDropped),
                SendOutcome::Closed => old(self).counts(),
            },
    {
        match outcome {
            SendOutcome::Sent => self.record(Event::DeviceSent),
            SendOutcome::Full => self.record(Event::DeviceDropped),
            SendOutcome::Closed => {},
        }
    }
}

impl Default for TunnelStats {
    fn default() -> (stats: TunnelStats)
        ensures
            stats.counts() == zeros(),
    {
        TunnelStats {
            ipc_rx_frames: 0,
            ipc_rx_dropped: 0,
            ipc_tx_frames: 0,
            ipc_tx_errors: 0,
            device_rx_frames: 0,
            device_tx_frames: 0,
            device_tx_dropped: 0,
            udp_tx_packets: 0,
            udp_tx_failed: 0,
            udp_rx_packets: 0,
            udp_rx_dropped: 0,
        }
    }
}

/// A label with its count behind it.
pub open spec fn labelled(label: Seq<char>, count: u64) -> Seq<char> {
    label + text::decimal(count as nat)
}

fn append_labelled(out: &mut String, label: &str, count: u64)
    ensures
        final(out)@ == old(out)@ + labelled(label@, count),
{
    let ghost before = out@;
    out.append(label);
    out.append(text::to_decimal(count).as_str());
    assert(out@ =~= before + labelled(label@, count));
}

impl TunnelStatsSnapshot {
    /// The counts after one more event: one counter goes up by one.
    pub open spec fn after(self, event: Event) -> TunnelStatsSnapshot {
        match event {
            Event::FrameReceived => TunnelStatsSnapshot {
                ipc_rx_frames: next_count(self.ipc_rx_frames),
                ..self
            },
            Event::FrameDropped => TunnelStatsSnapshot {
                ipc_rx_dropped: next_count(self.ipc_rx_dropped),
                ..self
            },
            Event::FrameSent => TunnelStatsSnapshot {
                ipc_tx_frames: next_count(self.ipc_tx_frames),
                ..self
            },
            Event::FrameLost => TunnelStatsSnapshot {
                ipc_tx_errors: next_count(self.ipc_tx_errors),
                ..self
            },
            Event::DeviceReceived => TunnelStatsSnapshot {
                device_rx_frames: next_count(self.device_rx_frames),
                ..self
            },
            Event::DeviceSent => TunnelStatsSnapshot {
                device_tx_frames: next_count(self.device_tx_frames),
                ..self
            },
            Event::DeviceDropped => TunnelStatsSnapshot {
                device_tx_dropped: next_count(self.device_tx_dropped),
                ..self
            },
            Event::UdpSent => TunnelStatsSnapshot {
                udp_tx_packets: next_count(self.udp_tx_packets),
                ..self
            },
            Event::UdpRefused => TunnelStatsSnapshot {
                udp_tx_failed: next_count(self.udp_tx_failed),
                ..self
            },
            Event::UdpReceived => TunnelStatsSnapshot {
                udp_rx_packets: next_count(self.udp_rx_packets),
                ..self
            },
            Event::UdpDropped => TunnelStatsSnapshot {
                udp_rx_dropped: next_count(self.udp_rx_dropped),
                ..self
            },
        }
    }

    /// The counters in three lines.
    pub open spec fn text(self) -> Seq<char> {
        labelled("IPC:    rx="@, self.ipc_rx_frames) + labelled(
            " rx_drop="@,
            self.ipc_rx_dropped,
        ) + labelled(" tx="@, self.ipc_tx_frames) + labelled(" tx_err="@, self.ipc_tx_errors)
            + labelled("\nDevice: rx="@, self.device_rx_frames) + labelled(
            " tx="@,
            self.device_tx_frames,
        ) + labelled(" tx_drop="@, self.device_tx_dropped) + labelled(
            "\nUDP:    tx="@,
            self.udp_tx_packets,
        ) + labelled(" tx_fail="@, self.udp_tx_failed) + labelled(" rx="@, self.udp_rx_packets)
            + labelled(" rx_drop="@, self.udp_rx_dropped)
    }

    /// Write the counters in three lines.
    pub fn to_text(&self) -> (out: String)
        ensures
            out@ == self.text(),
    {
        let mut out = String::new();
        append_labelled(&mut out, "IPC:    rx=", self.ipc_rx_frames);
        append_labelled(&mut out, " rx_drop=", self.ipc_rx_dropped);
        append_labelled(&mut out, " tx=", self.ipc_tx_frames);
        append_labelled(&mut out, " tx_err=", self.ipc_tx_errors);
        append_labelled(&mut out, "\nDevice: rx=", self.device_rx_frames);
        append_labelled(&mut out, " tx=", self.device_tx_frames);
        append_labelled(&mut out, " tx_drop=", self.device_tx_dropped);
        append_labelled(&mut out, "\nUDP:    tx=", self.udp_tx_packets);
        append_labelled(&mut out, " tx_fail=", self.udp_tx_failed);
        append_labelled(&mut out, " rx=", self.udp_rx_packets);
        append_labelled(&mut out, " rx_drop=", self.udp_rx_dropped);
        assert(out@ =~= self.text());
        out
    }
}

/// Every event is counted by one counter, its own: that goes up by one, and after
/// the largest number begins again at zero.
pub proof fn events_are_counted_once(stats: &mut TunnelStats, event: Event)
    requires
        call_ensures(TunnelStats::record, (stats, event), ()),
    ensures
        final(stats).ipc_rx_frames as int == (old(stats).ipc_rx_frames + if event is FrameReceived {
            1int
        } else {
            0int
        }) % 0x1_0000_0000_0000_0000,
        final(stats).ipc_rx_dropped as int == (old(stats).ipc_rx_dropped + if event is FrameDropped {
            1int
        } else {
            0int
        }) % 0x1_0000_0000_0000_0000,
        final(stats).ipc_tx_frames as int == (old(stats).ipc_tx_frames + if event is FrameSent {
            1int
        } else {
            0int
        }) % 0x1_0000_0000_0000_0000,
        final(stats).ipc_tx_errors as int == (old(stats).ipc_tx_errors + if event is FrameLost {
            1int
        } else {
            0int
        }) % 0x1_0000_0000_0000_0000,
        final(stats).device_rx_frames as int == (old(stats).device_rx_frames + if event is DeviceReceived {
            1int
        } else {
            0int
        }) % 0x1_0000_0000_0000_0000,
        final(stats).device_tx_frames as int == (old(stats).device_tx_frames + if event is DeviceSent {
            1int
        } else {
            0int
        }) % 0x1_0000_0000_0000_0000,
        final(stats).device_tx_dropped as int == (old(stats).device_tx_dropped + if event is DeviceDropped {
            1int
        } else {
            0int
        }) % 0x1_0000_0000_0000_0000,
        final(stats).udp_tx_packets as int == (old(stats).udp_tx_packets + if event is UdpSent {
            1int
        } else {
            0int
        }) % 0x1_0000_0000_0000_0000,
        final(stats).udp_tx_failed as int == (old(stats).udp_tx_failed + if event is UdpRefused {
            1int
        } else {
            0int
        }) % 0x1_0000_0000_0000_0000,
        final(stats).udp_rx_packets as int == (old(stats).udp_rx_packets + if event is UdpReceived {
            1int
        } else {
            0int
        }) % 0x1_0000_0000_0000_0000,
        final(stats).udp_rx_dropped as int == (old(stats).udp_rx_dropped + if event is UdpDropped {
            1int
        } else {
            0int
        }) % 0x1_0000_0000_0000_0000,
{
}

/// A frame of the device is counted as sent where the channel took it, and as dropped
/// where that was full.
pub proof fn frames_are_sent_or_dropped(stats: &mut TunnelStats, outcome: SendOutcome)
    requires
        call_ensures(TunnelStats::frame_transmitted, (stats, outcome), ()),
    ensures
        final(stats).device_tx_frames as int == (old(stats).device_tx_frames + if outcome is Sent {
            1int
        } else {
            0int
        }) % 0x1_0000_0000_0000_0000,
        final(stats).device_tx_dropped as int == (old(stats).device_tx_dropped + if outcome is Full {
            1int
        } else {
            0int
        }) % 0x1_0000_0000_0000_0000,
        final(stats).ipc_rx_frames == old(stats).ipc_rx_frames,
        final(stats).ipc_rx_dropped == old(stats).ipc_rx_dropped,
        final(stats).ipc_tx_frames == old(stats).ipc_tx_frames,
        final(stats).ipc_tx_errors == old(stats).ipc_tx_errors,
        final(stats).device_rx_frames == old(stats).device_rx_frames,
        final(stats).udp_tx_packets == old(stats).udp_tx_packets,
        final(stats).udp_tx_failed == old(stats).udp_tx_failed,
        final(stats).udp_rx_packets == old(stats).udp_rx_packets,
        final(stats).udp_rx_dropped == old(stats).udp_rx_dropped,
{
}

/// A snapshot has every counter as it is, and new counters are at zero.
pub proof fn snapshots_have_every_counter(
    stats: &TunnelStats,
    snapshot: TunnelStatsSnapshot,
    fresh: Arc<TunnelStats>,
)
    requires
        call_ensures(TunnelStats::snapshot, (stats,), snapshot),
        call_ensures(TunnelStats::new_shared, (), fresh),
    ensures
        snapshot.ipc_rx_frames == stats.ipc_rx_frames && fresh.ipc_rx_frames == 0,
        snapshot.ipc_rx_dropped == stats.ipc_rx_dropped && fresh.ipc_rx_dropped == 0,
        snapshot.ipc_tx_frames == stats.ipc_tx_frames && fresh.ipc_tx_frames == 0,
        snapshot.ipc_tx_errors == stats.ipc_tx_errors && fresh.ipc_tx_errors == 0,
        snapshot.device_rx_frames == stats.device_rx_frames && fresh.device_rx_frames == 0,
        snapshot.device_tx_frames == stats.device_tx_frames && fresh.device_tx_frames == 0,
        snapshot.device_tx_dropped == stats.device_tx_dropped && fresh.device_tx_dropped == 0,
        snapshot.udp_tx_packets == stats.udp_tx_packets && fresh.udp_tx_packets == 0,
        snapshot.udp_tx_failed == stats.udp_tx_failed && fresh.udp_tx_failed == 0,
        snapshot.udp_rx_packets == stats.udp_rx_packets && fresh.udp_rx_packets == 0,
        snapshot.udp_rx_dropped == stats.udp_rx_dropped && fresh.udp_rx_dropped == 0,
{
}

/// The counters are written in three lines, each behind its label.
pub proof fn counters_stand_behind_their_labels(
    snapshot: &TunnelStatsSnapshot,
    out: String,
    numbers: Seq<String>,
)
    requires
        call_ensures(TunnelStatsSnapshot::to_text, (snapshot,), out),
        numbers.len() == 11,
        call_ensures(text::to_decimal, (snapshot.ipc_rx_frames,), numbers[0]),
        call_ensures(text::to_decimal, (snapshot.ipc_rx_dropped,), numbers[1]),
        call_ensures(text::to_decimal, (snapshot.ipc_tx_frames,), numbers[2]),
        call_ensures(text::to_decimal, (snapshot.ipc_tx_errors,), numbers[3]),
        call_ensures(text::to_decimal, (snapshot.device_rx_frames,), numbers[4]),
        call_ensures(text::to_decimal, (snapshot.device_tx_frames,), numbers[5]),
        call_ensures(text::to_decimal, (snapshot.device_tx_dropped,), numbers[6]),
        call_ensures(text::to_decimal, (snapshot.udp_tx_packets,), numbers[7]),
        call_ensures(text::to_decimal, (snapshot.udp_tx_failed,), numbers[8]),
        call_ensures(text::to_decimal, (snapshot.udp_rx_packets,), numbers[9]),
        call_ensures(text::to_decimal, (snapshot.udp_rx_dropped,), numbers[10]),
    ensures
        out@ == "IPC:    rx="@ + numbers[0]@
            + " rx_drop="@ + numbers[1]@
            + " tx="@ + numbers[2]@
            + " tx_err="@ + numbers[3]@
            + "\nDevice: rx="@ + numbers[4]@
            + " tx="@ + numbers[5]@
            + " tx_drop="@ + numbers[6]@
            + "\nUDP:    tx="@ + numbers[7]@
            + " tx_fail="@ + numbers[8]@
            + " rx="@ + numbers[9]@
            + " rx_drop="@ + numbers[10]@,
{
    assert(out@ =~= "IPC:    rx="@ + numbers[0]@
        + " rx_drop="@ + numbers[1]@
        + " tx="@ + numbers[2]@
        + " tx_err="@ + numbers[3]@
        + "\nDevice: rx="@ + numbers[4]@
        + " tx="@ + numbers[5]@
        + " tx_drop="@ + numbers[6]@
        + "\nUDP:    tx="@ + numbers[7]@
        + " tx_fail="@ + numbers[8]@
        + " rx="@ + numbers[9]@
        + " rx_drop="@ + numbers[10]@);
}

} // verus!
