//! Which waiting polls an operation wakes.
use vstd::prelude::*;

use crate::seqs;

verus! {

/// A wakeup, with its topic read as a sequence.
pub enum WakeupView {
    Publishes,
    Topic(Seq<char>),
    Consumer(int),
}

/// A hint to polls that are waiting in this process. The tables remain the
/// source of truth: a wakeup only makes a poll look again sooner.
#[derive(Clone, Debug, Eq, PartialEq)]
pub enum Wakeup {
    /// Wakes the consumers that receive every message.
    Publishes,
    /// Wakes the consumers that receive this topic.
    Topic(String),
    /// Wakes the workers of one consumer.
    Consumer(i64),
}

impl View for Wakeup {
    type V = WakeupView;

    open spec fn view(&self) -> WakeupView {
        match *self {
            Wakeup::Publishes => WakeupView::Publishes,
            Wakeup::Topic(topic) => WakeupView::Topic(topic@),
            Wakeup::Consumer(id) => WakeupView::Consumer(id as int),
        }
    }
}

/// The topics, read as sequences.
pub open spec fn topic_views(topics: Seq<Option<&str>>) -> Seq<Option<Seq<char>>> {
    topics.map_values(
        |topic: Option<&str>|
            match topic {
                Some(topic) => Some(topic@),
                None => None,
            },
    )
}

/// Whether a topic is already woken.
fn is_woken(wakeups: &Vec<Wakeup>, topic: &String) -> (woken: bool)
    ensures
        woken == seqs::views(wakeups@).contains(WakeupView::Topic(topic@)),
{
    let ghost views = seqs::views(wakeups@);
    let mut i: usize = 0;
    while i < wakeups.len()
        invariant
            i <= wakeups@.len(),
            views == seqs::views(wakeups@),
            forall|j: int| 0 <= j < i ==> #[trigger] views[j] != WakeupView::Topic(topic@),
        decreases wakeups@.len() - i,
    {
        assert(views[i as int] == wakeups@[i as int]@);
        if let Wakeup::Topic(other) = &wakeups[i] {
            if *other == *topic {
                return true;
            }
        }
        i += 1;
    }
    false
}

/// The wakeups of a publish: everyone who receives every message, and everyone
/// who receives one of the topics, each once.
pub fn notify_publishes(topics: &Vec<Option<&str>>) -> (wakeups: Vec<Wakeup>)
    ensures
        seqs::views(wakeups@) == crate::model::publish_wakeups(topic_views(topics@)),
{
    let ghost all = topic_views(topics@);
    let mut wakeups: Vec<Wakeup> = Vec::new();
    wakeups.push(Wakeup::Publishes);
    let mut i: usize = 0;
    assert(seqs::views(wakeups@) =~= crate::model::publish_wakeups(all.take(0)));
    while i < topics.len()
        invariant
            i <= topics@.len(),
            all == topic_views(topics@),
            seqs::views(wakeups@) == crate::model::publish_wakeups(all.take(i as int)),
        decreases topics@.len() - i,
    {
        let ghost earlier = crate::model::distinct_topics(all.take(i as int));
        let ghost before = seqs::views(wakeups@);
        assert(all.take(i + 1).drop_last() =~= all.take(i as int));
        assert(all.take(i + 1).last() == all[i as int]);
        if let Some(topic) = topics[i] {
            let topic = String::from(topic);
            proof {
                if earlier.contains(topic@) {
                    let k = choose|k: int| 0 <= k < earlier.len() && earlier[k] == topic@;
                    assert(before[k + 1] == WakeupView::Topic(topic@));
                }
                if before.contains(WakeupView::Topic(topic@)) {
                    let k = choose|k: int|
                        0 <= k < before.len() && before[k] == WakeupView::Topic(topic@);
                    assert(before[0] == WakeupView::Publishes);
                    assert(earlier[k - 1] == topic@);
                }
            }
            if !is_woken(&wakeups, &topic) {
                proof {
                    seqs::lemma_views_push(wakeups@, Wakeup::Topic(topic));
                }
                wakeups.push(Wakeup::Topic(topic));
            }
        }
        assert(seqs::views(wakeups@) =~= crate::model::publish_wakeups(all.take(i + 1)));
        i += 1;
    }
    assert(all.take(i as int) =~= all);
    wakeups
}

} // verus!
