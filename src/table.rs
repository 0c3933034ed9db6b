use vstd::prelude::*;

verus! {

/// A topic number at or past the number of topics.
#[derive(Clone, Copy, Debug, PartialEq, Eq, Structural)]
pub struct TopicRangeError {
    pub topic: usize,
    pub topics: usize,
}

/// A fixed row of topics, one slot each, indexed by topic number.
pub struct ChannelTable<T> {
    slots: Vec<T>,
}

impl<T> View for ChannelTable<T> {
    type V = Seq<T>;

    closed spec fn view(&self) -> Seq<T> {
        self.slots@
    }
}

impl<T> ChannelTable<T> {
    pub fn new(slots: Vec<T>) -> (r: ChannelTable<T>)
        ensures
            r@ == slots@,
    {
        ChannelTable { slots }
    }

    /// The number of topics.
    pub fn len(&self) -> (r: usize)
        ensures
            r == self@.len(),
    {
        self.slots.len()
    }

    /// The slot of a topic, or an error for a topic number out of range.
    pub fn get(&self, topic: usize) -> (r: Result<&T, TopicRangeError>)
        ensures
            match r {
                Ok(slot) => topic < self@.len() && *slot == self@[topic as int],
                Err(e) => topic >= self@.len() && e == (TopicRangeError {
                    topic,
                    topics: self@.len() as usize,
                }),
            },
    {
        if topic < self.slots.len() {
            Ok(&self.slots[topic])
        } else {
            Err(TopicRangeError { topic, topics: self.slots.len() })
        }
    }
}

} // verus!
