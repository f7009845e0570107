use vstd::prelude::*;

use crate::message::Message;
use crate::title_basics::TitleBasics;

verus! {

/// What a writer worker asks of its caller after one message.
pub enum WorkerAction {
    /// Nothing to persist yet; receive the next message.
    Wait,
    /// Persist this full batch in one bulk write, then receive the next message.
    Write(Vec<TitleBasics>),
    /// Persist the final batch if there is one, put a completion message back
    /// on the channel for the other workers, and stop.
    Finish(Option<Vec<TitleBasics>>),
}

/// Takes the whole batch out for one bulk write, leaving it empty for reuse.
pub fn write_data(v: &mut Vec<TitleBasics>) -> (batch: Vec<TitleBasics>)
    ensures
        batch@ == old(v)@,
        final(v)@.len() == 0,
{
    let mut batch: Vec<TitleBasics> = Vec::new();
    std::mem::swap(v, &mut batch);
    batch
}

/// One writer worker: gathers the records it receives into batches of a fixed
/// size and hands each full batch out for persisting.
pub struct WriterWorker {
    batch: Vec<TitleBasics>,
    batch_size: usize,
    finished: bool,
    received: Ghost<Seq<TitleBasics>>,
    written: Ghost<Seq<TitleBasics>>,
}

impl WriterWorker {
    pub closed spec fn spec_batch_size(&self) -> nat {
        self.batch_size as nat
    }

    /// Whether the worker has seen a completion message and stopped.
    pub closed spec fn finished(&self) -> bool {
        self.finished
    }

    /// Every record received so far, in arrival order.
    pub closed spec fn received(&self) -> Seq<TitleBasics> {
        self.received@
    }

    /// Every record handed out for persisting so far, in order.
    pub closed spec fn written(&self) -> Seq<TitleBasics> {
        self.written@
    }

    /// The records waiting in the current batch.
    pub closed spec fn pending(&self) -> Seq<TitleBasics> {
        self.batch@
    }

    pub closed spec fn wf(&self) -> bool {
        &&& self.batch_size > 0
        &&& self.received@ == self.written@ + self.batch@
        &&& self.batch@.len() < self.batch_size
        &&& self.finished ==> self.batch@.len() == 0
    }

    /// A worker that writes in batches of `batch_size` records; a size of 0
    /// writes every record on its own, as a size of 1 does.
    pub fn new(batch_size: usize) -> (r: WriterWorker)
        ensures
            r.wf(),
            !r.finished(),
            r.spec_batch_size() == if batch_size == 0 {
                1
            } else {
                batch_size as nat
            },
            r.received() == Seq::<TitleBasics>::empty(),
            r.written() == Seq::<TitleBasics>::empty(),
            r.pending() == Seq::<TitleBasics>::empty(),
    {
        WriterWorker {
            batch: Vec::new(),
            batch_size: if batch_size == 0 {
                1
            } else {
                batch_size
            },
            finished: false,
            received: Ghost(Seq::empty()),
            written: Ghost(Seq::empty()),
        }
    }

    /// Handles one message from the channel. A record joins the batch, and a
    /// batch that reaches the batch size is handed out whole. A completion
    /// message hands out what is left (nothing when the batch is empty) and
    /// stops the worker.
    pub fn on_message(&mut self, msg: Message) -> (r: WorkerAction)
        requires
            old(self).wf(),
            !old(self).finished(),
        ensures
            final(self).wf(),
            final(self).spec_batch_size() == old(self).spec_batch_size(),
            final(self).pending().len() < final(self).spec_batch_size(),
            final(self).received() == final(self).written() + final(self).pending(),
            final(self).finished() ==> final(self).pending().len() == 0,
            match msg {
                Message::TitleBasics(t) => {
                    &&& !final(self).finished()
                    &&& final(self).received() == old(self).received().push(t)
                    &&& if old(self).pending().len() + 1 == old(self).spec_batch_size() {
                        &&& r matches WorkerAction::Write(b)
                        &&& b@ == old(self).pending().push(t)
                        &&& b@.len() == old(self).spec_batch_size()
                        &&& final(self).written() == old(self).written() + b@
                    } else {
                        &&& r is Wait
                        &&& final(self).written() == old(self).written()
                    }
                },
                Message::Done(_) => {
                    &&& final(self).finished()
                    &&& final(self).received() == old(self).received()
                    &&& final(self).written() == old(self).written() + old(self).pending()
                    &&& if old(self).pending().len() == 0 {
                        r == WorkerAction::Finish(None)
                    } else {
                        r matches WorkerAction::Finish(Some(b)) && b@ == old(self).pending()
                            && b@.len() < old(self).spec_batch_size()
                    }
                },
            },
    {
        match msg {
            Message::TitleBasics(data) => {
                let ghost t = data;
                self.received = Ghost(self.received@.push(t));
                self.batch.push(data);
                proof {
                    assert(self.received@ =~= self.written@ + self.batch@);
                }
                if self.batch.len() >= self.batch_size {
                    let b = write_data(&mut self.batch);
                    self.written = Ghost(self.written@ + b@);
                    proof {
                        assert(self.received@ =~= self.written@ + self.batch@);
                    }
                    WorkerAction::Write(b)
                } else {
                    WorkerAction::Wait
                }
            },
            Message::Done(_) => {
                self.finished = true;
                if self.batch.len() == 0 {
                    WorkerAction::Finish(None)
                } else {
                    let b = write_data(&mut self.batch);
                    self.written = Ghost(self.written@ + b@);
                    proof {
                        assert(self.received@ =~= self.written@ + self.batch@);
                    }
                    WorkerAction::Finish(Some(b))
                }
            },
        }
    }
}

/// Records received, summed over a set of workers.
pub open spec fn total_received(ws: Seq<WriterWorker>) -> nat
    decreases ws.len(),
{
    if ws.len() == 0 {
        0
    } else {
        total_received(ws.drop_last()) + ws.last().received().len()
    }
}

/// Records handed out for persisting, summed over a set of workers.
pub open spec fn total_written(ws: Seq<WriterWorker>) -> nat
    decreases ws.len(),
{
    if ws.len() == 0 {
        0
    } else {
        total_written(ws.drop_last()) + ws.last().written().len()
    }
}

impl WriterWorker {
    /// What a well-formed worker holds: a pending batch below the batch size,
    /// and every received record either handed out or pending, in order.
    pub proof fn lemma_batch_bound(&self)
        requires
            self.wf(),
        ensures
            self.spec_batch_size() > 0,
            self.pending().len() < self.spec_batch_size(),
            self.received() == self.written() + self.pending(),
            self.finished() ==> self.pending().len() == 0,
    {
    }

    /// A stopped worker has handed out every record it received, each once.
    pub proof fn lemma_finished_drained(&self)
        requires
            self.wf(),
            self.finished(),
        ensures
            self.written() == self.received(),
    {
        assert(self.batch@ =~= Seq::<TitleBasics>::empty());
        assert(self.received@ =~= self.written@);
    }
}

/// Once every worker of a pool has stopped, the records handed out for
/// persisting number exactly the records the pool received, whatever the
/// number of workers and the batch size. When the channel delivered each of
/// the `selected` records to one worker, the written total is `selected`.
pub proof fn lemma_pool_drained(ws: Seq<WriterWorker>, selected: nat)
    requires
        forall|i: int| 0 <= i < ws.len() ==> (#[trigger] ws[i]).wf() && ws[i].finished(),
        total_received(ws) == selected,
    ensures
        total_written(ws) == selected,
    decreases ws.len(),
{
    if ws.len() > 0 {
        let init = ws.drop_last();
        assert forall|i: int| 0 <= i < init.len() implies (#[trigger] init[i]).wf()
            && init[i].finished() by {
            assert(init[i] == ws[i]);
        }
        lemma_pool_drained(init, total_received(init));
        ws.last().lemma_finished_drained();
    }
}

} // verus!
