//! Log-line formatting.  The library composes the lines; the surrounding
//! program prints them.

use vstd::prelude::*;

verus! {

pub enum LogLevel {
    Success,
    Error,
    Info,
    Print,
    Warning,
    Watcher,
    Debug,
}

pub struct Logger;

pub open spec fn status_of(level: LogLevel) -> Seq<char> {
    match level {
        LogLevel::Success => "[SUCCESS]"@,
        LogLevel::Error => "[ERROR]"@,
        LogLevel::Info => "[INFO]"@,
        LogLevel::Warning => "[WARNING]"@,
        LogLevel::Watcher => "[WATCHER]"@,
        LogLevel::Debug => "[DEBUG]"@,
        LogLevel::Print => "[PRINT]"@,
    }
}

/// The first line of every log message.
pub open spec fn message_line(level: LogLevel, message: Seq<char>) -> Seq<char> {
    "⚒️  [Devapack] "@ + status_of(level) + " "@ + message
}

/// The indented continuation lines of a trace.
pub open spec fn trace_text(trace: Seq<String>) -> Seq<char>
    decreases trace.len(),
{
    if trace.len() == 0 {
        Seq::empty()
    } else {
        "\n     ↳ "@ + trace[0]@ + trace_text(trace.drop_first())
    }
}

impl Logger {
    pub fn new() -> (r: Logger)
        ensures
            r == Logger,
    {
        Logger
    }

    /// The tag in front of every message.
    pub fn language_signature(&self) -> (r: String)
        ensures
            r@ == "[Devapack]"@,
    {
        String::from_str("[Devapack]")
    }

    /// The bracketed form of a status level.
    pub fn format_status(&self, level: LogLevel) -> (r: String)
        ensures
            r@ == status_of(level),
    {
        match level {
            LogLevel::Success => String::from_str("[SUCCESS]"),
            LogLevel::Error => String::from_str("[ERROR]"),
            LogLevel::Info => String::from_str("[INFO]"),
            LogLevel::Warning => String::from_str("[WARNING]"),
            LogLevel::Watcher => String::from_str("[WATCHER]"),
            LogLevel::Debug => String::from_str("[DEBUG]"),
            LogLevel::Print => String::from_str("[PRINT]"),
        }
    }

    /// Composes one log line for the caller to print.
    pub fn log_message(&self, level: LogLevel, message: &str) -> (r: String)
        ensures
            r@ == message_line(level, message@),
    {
        let mut s = String::from_str("⚒️  [Devapack] ");
        let st = self.format_status(level);
        s.append(st.as_str());
        s.append(" ");
        s.append(message);
        s
    }

    /// Composes a log line with indented trace lines under it.
    #[verifier::loop_isolation(false)]
    pub fn log_message_with_trace(&self, level: LogLevel, message: &str, trace: &Vec<String>) -> (r:
        String)
        ensures
            r@ == message_line(level, message@) + trace_text(trace@),
    {
        let mut s = self.log_message(level, message);
        let n = trace.len();
        let mut i: usize = 0;
        proof {
            assert(trace@.skip(0) =~= trace@);
            assert(s@ + trace_text(trace@) =~= message_line(level, message@) + trace_text(trace@));
        }
        while i < n
            invariant
                n == trace@.len(),
                0 <= i <= n,
                message_line(level, message@) + trace_text(trace@) == s@ + trace_text(
                    trace@.skip(i as int),
                ),
            decreases n - i,
        {
            proof {
                assert(trace@.skip(i as int)[0] == trace@[i as int]);
                assert(trace@.skip(i as int).drop_first() =~= trace@.skip(i + 1));
            }
            let ghost before = s@;
            s.append("\n     ↳ ");
            s.append(trace[i].as_str());
            proof {
                assert(s@ =~= before + "\n     ↳ "@ + trace@[i as int]@);
                assert((before + "\n     ↳ "@ + trace@[i as int]@) + trace_text(trace@.skip(i + 1))
                    =~= before + ("\n     ↳ "@ + trace@[i as int]@ + trace_text(
                    trace@.skip(i + 1),
                )));
            }
            i = i + 1;
        }
        proof {
            assert(trace_text(trace@.skip(n as int)) =~= Seq::<char>::empty());
            assert(s@ + Seq::<char>::empty() =~= s@);
        }
        s
    }

    /// Composes an error line with its stack trace under it.
    pub fn log_error_with_stacktrace(&self, message: &str, stacktrace: &str) -> (r: String)
        ensures
            r@ == message_line(LogLevel::Error, message@) + "\n     ↳ "@ + stacktrace@,
    {
        let mut s = self.log_message(LogLevel::Error, message);
        s.append("\n     ↳ ");
        s.append(stacktrace);
        s
    }
}

/// The version banner shown by the command line.
pub fn get_signature(version: &str) -> (r: String)
    ensures
        r@
            == "\n   /|_/|                    \n  / ^ ^(_o                  ⚒️  Devapack (addons generator and packager for Devalang)\n /    __.'                  \n /     \\                    A programming language for music and sound.\n/  _   \\_                   Part of the Devaloop ecosystem.\n(_) (_) '._                 \n  '.__     '. .-''-'.       https://devalang.com\n     ( '.   ('.____.''\n     _) )'_, )              v"@
            + version@ + "\n    (__/ (__/\n"@,
{
    let mut s = String::from_str(
        "\n   /|_/|                    \n  / ^ ^(_o                  ⚒️  Devapack (addons generator and packager for Devalang)\n /    __.'                  \n /     \\                    A programming language for music and sound.\n/  _   \\_                   Part of the Devaloop ecosystem.\n(_) (_) '._                 \n  '.__     '. .-''-'.       https://devalang.com\n     ( '.   ('.____.''\n     _) )'_, )              v",
    );
    s.append(version);
    s.append("\n    (__/ (__/\n");
    s
}

} // verus!

use vstd::prelude::*;

verus! {

/// `trace_text` over the line texts rather than the strings.
pub open spec fn trace_text_views(trace: Seq<Seq<char>>) -> Seq<char>
    decreases trace.len(),
{
    if trace.len() == 0 {
        Seq::empty()
    } else {
        "\n     ↳ "@ + trace[0] + trace_text_views(trace.drop_first())
    }
}

pub proof fn lemma_trace_text_views(trace: Seq<String>)
    ensures
        trace_text(trace) == trace_text_views(trace.map_values(|l: String| l@)),
    decreases trace.len(),
{
    if trace.len() > 0 {
        lemma_trace_text_views(trace.drop_first());
        assert(trace.map_values(|l: String| l@).drop_first() =~= trace.drop_first().map_values(
            |l: String| l@,
        ));
    }
}

} // verus!
