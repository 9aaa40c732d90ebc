//! A buffer of log messages that the interface shows and then drains.
use vstd::prelude::*;

verus! {

/// The kind of a log message.
#[derive(Copy, Clone, Debug, PartialEq, Eq, Structural)]
pub enum LogMsgType {
    Message,
    Debug,
}

/// Log messages, oldest first.
pub struct Logger {
    messages: Vec<(LogMsgType, String)>,
}

/// The mathematical form of logged messages.
pub open spec fn log_view(v: Seq<(LogMsgType, String)>) -> Seq<(LogMsgType, Seq<char>)> {
    Seq::new(v.len(), |i: int| (v[i].0, v[i].1@))
}

impl View for Logger {
    type V = Seq<(LogMsgType, Seq<char>)>;

    closed spec fn view(&self) -> Seq<(LogMsgType, Seq<char>)> {
        log_view(self.messages@)
    }
}

impl Logger {
    /// A logger without messages.
    pub fn new() -> (r: Self)
        ensures
            r@ == Seq::<(LogMsgType, Seq<char>)>::empty(),
    {
        let r = Logger { messages: Vec::new() };
        assert(r@ =~= Seq::<(LogMsgType, Seq<char>)>::empty());
        r
    }

    fn log(&mut self, msg_type: LogMsgType, msg: String)
        ensures
            final(self)@ == old(self)@.push((msg_type, msg@)),
    {
        self.messages.push((msg_type, msg));
        assert(self@ =~= old(self)@.push((msg_type, msg@)));
    }

    /// Logs a debug message.
    pub fn log_debug(&mut self, msg: String)
        ensures
            final(self)@ == old(self)@.push((LogMsgType::Debug, msg@)),
    {
        self.log(LogMsgType::Debug, msg);
    }

    /// Logs a message.
    pub fn log_message(&mut self, msg: String)
        ensures
            final(self)@ == old(self)@.push((LogMsgType::Message, msg@)),
    {
        self.log(LogMsgType::Message, msg);
    }

    /// Takes all messages logged so far, oldest first; none remain.
    pub fn drain_messages(&mut self) -> (r: Vec<(LogMsgType, String)>)
        ensures
            log_view(r@) == old(self)@,
            final(self)@ == Seq::<(LogMsgType, Seq<char>)>::empty(),
    {
        let mut alt_buffer = Vec::new();
        std::mem::swap(&mut self.messages, &mut alt_buffer);
        assert(self@ =~= Seq::<(LogMsgType, Seq<char>)>::empty());
        alt_buffer
    }
}

/// Messages for the user, oldest first.
pub struct MessageSink {
    messages: Vec<String>,
}

impl View for MessageSink {
    type V = Seq<Seq<char>>;

    closed spec fn view(&self) -> Seq<Seq<char>> {
        crate::completion::strings_view(self.messages@)
    }
}

impl MessageSink {
    /// A sink without messages.
    pub fn new() -> (r: Self)
        ensures
            r@ == Seq::<Seq<char>>::empty(),
    {
        let r = MessageSink { messages: Vec::new() };
        assert(r@ =~= Seq::<Seq<char>>::empty());
        r
    }

    /// Adds a message.
    pub fn send(&mut self, msg: String)
        ensures
            final(self)@ == old(self)@.push(msg@),
    {
        self.messages.push(msg);
        assert(self@ =~= old(self)@.push(msg@));
    }

    /// Takes all messages sent so far, oldest first; none remain.
    pub fn drain_messages(&mut self) -> (r: Vec<String>)
        ensures
            crate::completion::strings_view(r@) == old(self)@,
            final(self)@ == Seq::<Seq<char>>::empty(),
    {
        let mut alt_buffer = Vec::new();
        std::mem::swap(&mut self.messages, &mut alt_buffer);
        assert(self@ =~= Seq::<Seq<char>>::empty());
        alt_buffer
    }
}

} // verus!
