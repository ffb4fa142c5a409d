//! The state that the handlers share: whether a capture runs, and the voice of the speaker.
use crate::speaker::SpeakerBuffer;
use crate::text::{decimal, decimal_text};
use vstd::prelude::*;
use vstd::string::*;

verus! {

/// Shared app state: the background worker, and the most recent samples
pub struct AppState {
    /// There is a worker.
    pub running: bool,
    /// The worker is asked to stop.
    pub stopping: bool,
    /// The voice of the speaker.
    pub speaker_buf: SpeakerBuffer,
}

/// Whether there is a worker, and whether it is asked to stop.
pub struct Phase {
    pub running: bool,
    pub stopping: bool,
}

impl Phase {
    /// After a request to start: nothing changes if there is a worker.
    pub open spec fn started(self) -> Phase {
        if self.running {
            self
        } else {
            Phase { running: true, stopping: false }
        }
    }

    /// After a request to stop.
    pub open spec fn stopped(self) -> Phase {
        Phase { running: false, stopping: true }
    }
}

impl AppState {
    /// Whether there is a worker, and whether it is asked to stop.
    pub open spec fn phase(&self) -> Phase {
        Phase { running: self.running, stopping: self.stopping }
    }

    /// Initialize with no worker, nobody asked to stop, and no samples
    pub fn new() -> (r: Self)
        ensures
            r.phase() == (Phase { running: false, stopping: false }),
            r.speaker_buf@ == Seq::<i16>::empty(),
    {
        AppState { running: false, stopping: false, speaker_buf: SpeakerBuffer::new() }
    }

    /// A worker is to be started, unless there is one. A worker that has ended by itself still
    /// counts until it is stopped. Gives back whether to start one, and the reply.
    pub fn start(&mut self) -> (r: (bool, String))
        ensures
            final(self).phase() == old(self).phase().started(),
            final(self).speaker_buf@ == old(self).speaker_buf@,
            r.0 == !old(self).running,
            r.1@ == (if old(self).running {
                "already running"@
            } else {
                "started"@
            }),
    {
        if self.running {
            return (false, "already running".to_owned());
        }
        self.stopping = false;
        self.running = true;
        (true, "started".to_owned())
    }

    /// The worker is to stop. Gives back whether there is one to end, and the reply.
    pub fn stop(&mut self) -> (r: (bool, String))
        ensures
            final(self).phase() == old(self).phase().stopped(),
            final(self).speaker_buf@ == old(self).speaker_buf@,
            r.0 == old(self).running,
            r.1@ == "stopped"@,
    {
        let had = self.running;
        self.stopping = true;
        self.running = false;
        (had, "stopped".to_owned())
    }
}

/// Starting again while a worker runs changes nothing.
pub proof fn law_start_once(p: Phase)
    ensures
        p.started().started() == p.started(),
        p.started().running,
{
}

/// After a stop a start always gives a fresh worker that is not asked to stop.
pub proof fn law_stop_then_start(p: Phase)
    ensures
        !p.stopped().running,
        p.stopped().started() == (Phase { running: true, stopping: false }),
{
}

/// Where the dashboard of the server at `port` is found.
pub fn dashboard_url(port: u16) -> (r: String)
    ensures
        r@ == "http://127.0.0.1:"@ + decimal(port as nat) + "/dashboard"@,
{
    let mut s = "http://127.0.0.1:".to_owned();
    s.append(decimal_text(port as u128).as_str());
    s.append("/dashboard");
    s
}

}
