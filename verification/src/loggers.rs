//! The loggers the application writes to: a log file, and the error reporting service.
use vstd::prelude::*;

verus! {

/// Setting where a logger writes.
pub trait FileLoggerPath {
    fn set_log_file_path(&mut self, file_path: &str);
}

/// A logger that appends time-stamped lines to a file.
#[derive(Clone)]
pub struct FileLogger {
    pub file_path: String,
}

impl FileLoggerPath for FileLogger {
    /// Makes the logger write to `file_path`.
    fn set_log_file_path(&mut self, file_path: &str)
        ensures
            final(self).file_path@ == file_path@,
    {
        self.file_path = file_path.to_owned();
    }
}

/// The line a log file gets for `message` written at `timestamp`.
pub fn log_line(timestamp: &str, message: &str) -> (l: String)
    ensures
        l@ == timestamp@ + " "@ + message@,
{
    let mut l = timestamp.to_owned();
    l.append(" ");
    l.append(message);
    l
}

/// A logger that reports to the error reporting service.
pub struct SentryLogger;

} // verus!
