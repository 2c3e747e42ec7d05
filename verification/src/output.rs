//! Structured line output: plain lines, raw bytes, and lines wrapped in
//! ANSI styles, written to a byte sink.

use vstd::prelude::*;
use crate::style::{BLUE, BOLD, GRAY, GREEN, ORANGE, RED, RESET};
use crate::text::{push_str, string_push};

verus! {

/// Why a write failed.
#[derive(Debug)]
pub struct OutputError {
    pub message: String,
}

/// A destination for output bytes.
///
/// `contents` is what has been written so far; a successful write appends
/// exactly the given bytes. A sink that `never_refuses` (such as a byte
/// vector) succeeds at every write and flush and stays such a sink.
pub trait OutputSink {
    spec fn contents(&self) -> Seq<u8>;

    spec fn never_refuses(&self) -> bool;

    fn write_bytes(&mut self, bytes: &[u8]) -> (r: Result<(), OutputError>)
        ensures
            r is Ok ==> final(self).contents() == old(self).contents() + bytes@,
            old(self).never_refuses() ==> r is Ok && final(self).never_refuses(),
    ;

    fn flush_sink(&mut self) -> (r: Result<(), OutputError>)
        ensures
            final(self).contents() == old(self).contents(),
            old(self).never_refuses() ==> r is Ok && final(self).never_refuses(),
    ;
}

impl OutputSink for Vec<u8> {
    open spec fn contents(&self) -> Seq<u8> {
        self@
    }

    open spec fn never_refuses(&self) -> bool {
        true
    }

    fn write_bytes(&mut self, bytes: &[u8]) -> (r: Result<(), OutputError>)
        ensures
            r is Ok,
            final(self)@ == old(self)@ + bytes@,
    {
        for i in 0..bytes.len()
            invariant
                self@ == old(self)@ + bytes@.take(i as int),
        {
            self.push(bytes[i]);
            proof {
                assert(self@ =~= old(self)@ + bytes@.take(i + 1));
            }
        }
        proof {
            assert(bytes@.take(bytes@.len() as int) =~= bytes@);
        }
        Ok(())
    }

    fn flush_sink(&mut self) -> (r: Result<(), OutputError>)
        ensures
            r is Ok,
    {
        Ok(())
    }
}

/// The bytes of a line: `prefix`, `text` and `suffix` followed by a newline, UTF-8 encoded.
pub open spec fn line_bytes(prefix: Seq<char>, text: Seq<char>, suffix: Seq<char>) -> Seq<u8> {
    vstd::utf8::encode_utf8(prefix + text + suffix + seq!['\n'])
}

/// Structured output writer.
pub struct Output<W: OutputSink> {
    writer: W,
}

impl<W: OutputSink> Output<W> {
    /// Output to the given sink.
    pub fn new(writer: W) -> (r: Self)
        ensures
            r.contents() == writer.contents(),
            r.never_refuses() == writer.never_refuses(),
    {
        Output { writer }
    }

    /// What has been written so far.
    pub closed spec fn contents(&self) -> Seq<u8> {
        self.writer.contents()
    }

    /// Whether the sink succeeds at every write.
    pub closed spec fn never_refuses(&self) -> bool {
        self.writer.never_refuses()
    }

    /// The sink, giving up the writer.
    pub fn into_inner(self) -> (w: W)
        ensures
            w.contents() == self.contents(),
    {
        self.writer
    }

    fn write_line(&mut self, prefix: &str, text: &str, suffix: &str) -> (r: Result<(), OutputError>)
        ensures
            r is Ok ==> final(self).contents() == old(self).contents() + line_bytes(prefix@, text@, suffix@),
            old(self).never_refuses() ==> r is Ok && final(self).never_refuses(),
    {
        let mut s = String::new();
        push_str(&mut s, prefix);
        push_str(&mut s, text);
        push_str(&mut s, suffix);
        string_push(&mut s, '\n');
        let bytes = s.as_str().as_bytes();
        proof {
            assert(s@ =~= prefix@ + text@ + suffix@ + seq!['\n']);
        }
        self.writer.write_bytes(bytes)
    }

    /// Write `text` followed by a newline.
    pub fn line(&mut self, text: &str) -> (r: Result<(), OutputError>)
        ensures
            r is Ok ==> final(self).contents() == old(self).contents() + line_bytes(Seq::empty(), text@, Seq::empty()),
            old(self).never_refuses() ==> r is Ok && final(self).never_refuses(),
    {
        proof {
            reveal_strlit("");
        }
        self.write_line("", text, "")
    }

    /// Write a newline.
    pub fn blank(&mut self) -> (r: Result<(), OutputError>)
        ensures
            r is Ok ==> final(self).contents() == old(self).contents() + line_bytes(Seq::empty(), Seq::empty(), Seq::empty()),
            old(self).never_refuses() ==> r is Ok && final(self).never_refuses(),
    {
        proof {
            reveal_strlit("");
        }
        self.write_line("", "", "")
    }

    /// Write bytes as they are.
    pub fn raw(&mut self, bytes: &[u8]) -> (r: Result<(), OutputError>)
        ensures
            r is Ok ==> final(self).contents() == old(self).contents() + bytes@,
            old(self).never_refuses() ==> r is Ok && final(self).never_refuses(),
    {
        self.writer.write_bytes(bytes)
    }

    /// Write a message in green, then a newline.
    pub fn success(&mut self, msg: &str) -> (r: Result<(), OutputError>)
        ensures
            r is Ok ==> final(self).contents() == old(self).contents() + line_bytes(GREEN@, msg@, RESET@),
            old(self).never_refuses() ==> r is Ok && final(self).never_refuses(),
    {
        self.write_line(GREEN, msg, RESET)
    }

    /// Write a message in red, then a newline.
    pub fn error(&mut self, msg: &str) -> (r: Result<(), OutputError>)
        ensures
            r is Ok ==> final(self).contents() == old(self).contents() + line_bytes(RED@, msg@, RESET@),
            old(self).never_refuses() ==> r is Ok && final(self).never_refuses(),
    {
        self.write_line(RED, msg, RESET)
    }

    /// Write a message in orange, then a newline.
    pub fn warning(&mut self, msg: &str) -> (r: Result<(), OutputError>)
        ensures
            r is Ok ==> final(self).contents() == old(self).contents() + line_bytes(ORANGE@, msg@, RESET@),
            old(self).never_refuses() ==> r is Ok && final(self).never_refuses(),
    {
        self.write_line(ORANGE, msg, RESET)
    }

    /// Write a message in blue, then a newline.
    pub fn info(&mut self, msg: &str) -> (r: Result<(), OutputError>)
        ensures
            r is Ok ==> final(self).contents() == old(self).contents() + line_bytes(BLUE@, msg@, RESET@),
            old(self).never_refuses() ==> r is Ok && final(self).never_refuses(),
    {
        self.write_line(BLUE, msg, RESET)
    }

    /// Write a message in gray, then a newline.
    pub fn dim(&mut self, msg: &str) -> (r: Result<(), OutputError>)
        ensures
            r is Ok ==> final(self).contents() == old(self).contents() + line_bytes(GRAY@, msg@, RESET@),
            old(self).never_refuses() ==> r is Ok && final(self).never_refuses(),
    {
        self.write_line(GRAY, msg, RESET)
    }

    /// Write a message in bold, then a newline.
    pub fn bold(&mut self, msg: &str) -> (r: Result<(), OutputError>)
        ensures
            r is Ok ==> final(self).contents() == old(self).contents() + line_bytes(BOLD@, msg@, RESET@),
            old(self).never_refuses() ==> r is Ok && final(self).never_refuses(),
    {
        self.write_line(BOLD, msg, RESET)
    }

    /// Write `prefix`, `text` and `suffix`, then a newline.
    pub fn styled_line(&mut self, prefix: &str, text: &str, suffix: &str) -> (r: Result<(), OutputError>)
        ensures
            r is Ok ==> final(self).contents() == old(self).contents() + line_bytes(prefix@, text@, suffix@),
            old(self).never_refuses() ==> r is Ok && final(self).never_refuses(),
    {
        self.write_line(prefix, text, suffix)
    }

    /// Flush the sink.
    pub fn flush(&mut self) -> (r: Result<(), OutputError>)
        ensures
            final(self).contents() == old(self).contents(),
            old(self).never_refuses() ==> r is Ok && final(self).never_refuses(),
    {
        self.writer.flush_sink()
    }
}

impl Output<Vec<u8>> {
    /// Take the bytes written so far, leaving the output empty.
    pub fn take_bytes(&mut self) -> (b: Vec<u8>)
        ensures
            b@ == old(self).contents(),
            final(self).contents() == Seq::<u8>::empty(),
            final(self).never_refuses(),
    {
        let mut b: Vec<u8> = Vec::new();
        std::mem::swap(&mut b, &mut self.writer);
        b
    }
}

} // verus!
