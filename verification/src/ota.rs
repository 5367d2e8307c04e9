//! Updates of the firmware over the network.

use vstd::prelude::*;

use crate::text::{push_decimal, push_text};

verus! {

pub const CHUNK_BYTES: usize = 4_096;

/// How long a whole upload may take.
pub const UPLOAD_TIMEOUT_S: u64 = 120;

/// How long the device waits before it restarts, so that the answer gets out.
pub const REBOOT_DELAY_MS: u64 = 500;

/// What a request is answered with.
#[derive(Debug, Clone, Copy, PartialEq, Eq, Structural)]
pub enum Status {
    Success,
    BadRequest,
    InternalServerError,
}

/// An answer, and whether the device restarts after it.
#[derive(Debug)]
pub struct Answer {
    pub status: Status,
    pub text: String,
    pub reboot: bool,
}

/// Turns down an upload that does not say how long it is.
pub fn check_upload(content_length: usize) -> (r: Option<Answer>)
    ensures
        r is Some == (content_length == 0),
        r is Some ==> r->0.status == Status::BadRequest && r->0.text@ == "Content-Length required"@
            && !r->0.reboot,
{
    if content_length == 0 {
        Some(
            Answer {
                status: Status::BadRequest,
                text: "Content-Length required".to_owned(),
                reboot: false,
            },
        )
    } else {
        None
    }
}

/// Answers an upload: with the number of bytes written, or with why it failed.
pub fn answer_upload(result: Result<usize, String>) -> (r: Answer)
    ensures
        match result {
            Ok(written) => {
                &&& r.status == Status::Success
                &&& r.text@ == "OTA OK: "@ + crate::text::decimal(written as nat)
                    + " bytes written, rebooting..."@
                &&& r.reboot
            },
            Err(cause) => {
                &&& r.status == Status::InternalServerError
                &&& r.text@ == "OTA failed: "@ + cause@
                &&& !r.reboot
            },
        },
{
    match result {
        Ok(written) => {
            let mut text = "OTA OK: ".to_owned();
            push_decimal(&mut text, written as u64);
            push_text(&mut text, " bytes written, rebooting...");
            Answer { status: Status::Success, text, reboot: true }
        },
        Err(cause) => {
            let mut text = "OTA failed: ".to_owned();
            push_text(&mut text, cause.as_str());
            Answer { status: Status::InternalServerError, text, reboot: false }
        },
    }
}

/// An upload under way.
#[derive(Debug)]
pub struct Transfer {
    pub expected: usize,
    pub written: usize,
}

/// What follows from a read.
#[derive(Debug, Clone, Copy, PartialEq, Eq, Structural)]
pub enum Chunk {
    /// Write the bytes that were read.
    Write,
    /// There is nothing more.
    End,
}

impl Transfer {
    pub fn new(content_length: usize) -> (r: Self)
        ensures
            r.expected == content_length,
            r.written == 0,
    {
        Transfer { expected: content_length, written: 0 }
    }

    /// Takes a read of so many bytes.
    pub fn after_read(&self, n: usize) -> (r: Chunk)
        ensures
            r == if n == 0 {
                Chunk::End
            } else {
                Chunk::Write
            },
    {
        if n == 0 {
            Chunk::End
        } else {
            Chunk::Write
        }
    }

    /// Counts bytes that were written.
    pub fn wrote(&mut self, n: usize)
        requires
            old(self).written + n <= usize::MAX,
        ensures
            final(self).expected == old(self).expected,
            final(self).written == old(self).written + n,
    {
        self.written = self.written + n;
    }

    /// What is said of a write that failed.
    pub fn write_failed(&self, cause: &str) -> (r: String)
        ensures
            r@ == "OTA write failed at "@ + crate::text::decimal(self.written as nat) + ": "@
                + cause@,
    {
        let mut text = "OTA write failed at ".to_owned();
        push_decimal(&mut text, self.written as u64);
        push_text(&mut text, ": ");
        push_text(&mut text, cause);
        text
    }

    /// Whether all of the firmware was written. Only then it may be run.
    pub fn is_complete(&self) -> (r: bool)
        ensures
            r == (self.written == self.expected),
    {
        self.written == self.expected
    }
}

} // verus!
