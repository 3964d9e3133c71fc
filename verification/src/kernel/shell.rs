//! The command line of the kernel.

use vstd::prelude::*;
use crate::shared::logger::{after_text, drawable, is_basic_latin, FrameBufferInfo, Logger, TextState};

verus! {

/// The shell: the console it writes on and the line that is being typed.
pub struct Shell {
    logger: Logger,
    input_buffer: Vec<char>,
}

/// The prompt.
pub open spec fn prompt() -> Seq<char> {
    seq!['#', ' ']
}

/// The command that stops the kernel.
pub open spec fn shutdown_command() -> Seq<char> {
    seq!['s', 'h', 'u', 't', 'd', 'o', 'w', 'n']
}

/// The command that lists the commands.
pub open spec fn help_command() -> Seq<char> {
    seq!['h', 'e', 'l', 'p']
}

/// What the shell says before the kernel stops.
pub open spec fn shutdown_message() -> Seq<char> {
    seq![
        '\n',
        's',
        'h',
        'u',
        't',
        't',
        'i',
        'n',
        'g',
        ' ',
        'd',
        'o',
        'w',
        'n',
        '.',
        '.',
        '.',
        '\n',
    ]
}

/// What the shell says to `help`.
pub open spec fn help_message() -> Seq<char> {
    seq![
        'T', 'h', 'i', 's', ' ', 'i', 's', ' ', 'R', 'u', 's', 't', ' ', 'O', 'S', '!', ' ', 'C', 'o',
        'm', 'm', 'a', 'n', 'd', 's', ' ', 'l', 'i', 's', 't', ':', '\n', '-', ' ', 'h', 'e', 'l', 'p',
        '\n', '-', ' ', 's', 'h', 'u', 't', 'd', 'o', 'w', 'n', '\n',
    ]
}

/// What the shell writes on the console for the character `c`, typed after
/// the line `line`: the character itself, and after a line feed the answer
/// to the line and, unless the kernel stops, a new prompt.
pub open spec fn shell_output(line: Seq<char>, c: char) -> Seq<char> {
    if c != '\n' {
        seq![c]
    } else if line == shutdown_command() {
        seq![c] + shutdown_message()
    } else if line == help_command() {
        seq![c] + help_message() + prompt()
    } else {
        seq![c] + prompt()
    }
}

/// After the characters of `first` and then those of `second` the console
/// holds what it holds after those of both in one go.
pub proof fn lemma_after_text_concat(
    s: TextState,
    first: Seq<char>,
    second: Seq<char>,
    columns: int,
    rows: int,
)
    ensures
        after_text(after_text(s, first, columns, rows), second, columns, rows) == after_text(
            s,
            first + second,
            columns,
            rows,
        ),
    decreases second.len(),
{
    if second.len() == 0 {
        assert(first + second =~= first);
    } else {
        lemma_after_text_concat(s, first, second.drop_last(), columns, rows);
        assert((first + second).drop_last() =~= first + second.drop_last());
    }
}

fn same_chars(line: &Vec<char>, word: &Vec<char>) -> (same: bool)
    ensures
        same == (line@ == word@),
{
    if line.len() != word.len() {
        return false;
    }
    let mut i: usize = 0;
    while i < line.len()
        invariant
            i <= line@.len(),
            line@.len() == word@.len(),
            forall|k: int| 0 <= k < i ==> line@[k] == word@[k],
        decreases line@.len() - i,
    {
        if line[i] != word[i] {
            return false;
        }
        i = i + 1;
    }
    assert(line@ =~= word@);
    true
}

impl Shell {
    /// The console of the shell.
    pub closed spec fn console(&self) -> Logger {
        self.logger
    }

    /// The line that is being typed.
    pub closed spec fn line(&self) -> Seq<char> {
        self.input_buffer@
    }

    /// The console is well formed.
    pub open spec fn wf(&self) -> bool {
        self.console().wf()
    }

    /// A shell on a blank console, with a prompt.
    pub fn new(fb_info: FrameBufferInfo, fb: Vec<u8>) -> (shell: Shell)
        requires
            drawable(fb_info, fb@.len() as int),
        ensures
            shell.wf(),
            shell.line() == Seq::<char>::empty(),
            shell.console().info() == fb_info,
            shell.console().text().x == 2 || shell.console().columns() < 2,
    {
        let mut logger = Logger::new(fb_info, fb);
        let ghost fresh = logger.text();
        let prompt_chars = vec!['#', ' '];
        logger.write_chars(&prompt_chars);
        proof {
            assert(prompt_chars@.drop_last() =~= seq!['#']);
            assert(seq!['#'].drop_last() =~= Seq::<char>::empty());
            reveal_with_fuel(after_text, 3);
        }
        Shell { logger, input_buffer: Vec::new() }
    }

    /// Takes a typed character of Basic Latin: writes it on the console,
    /// and at a line feed answers the line typed. Returns `true` where the
    /// line was `shutdown`: the kernel is to stop.
    pub fn char_input(&mut self, c: char) -> (stop: bool)
        requires
            old(self).wf(),
            is_basic_latin(c),
        ensures
            final(self).wf(),
            stop == (c == '\n' && old(self).line() == shutdown_command()),
            final(self).line() == (if c != '\n' {
                old(self).line().push(c)
            } else if stop {
                old(self).line()
            } else {
                Seq::<char>::empty()
            }),
            final(self).console().info() == old(self).console().info(),
            final(self).console().text() == after_text(
                old(self).console().text(),
                shell_output(old(self).line(), c),
                old(self).console().columns(),
                old(self).console().rows(),
            ),
    {
        let ghost start = self.logger.text();
        let ghost columns = self.logger.columns();
        let ghost rows = self.logger.rows();
        self.logger.write_char(c);
        proof {
            assert(seq![c].drop_last() =~= Seq::<char>::empty());
            reveal_with_fuel(after_text, 2);
            assert(self.logger.text() == after_text(start, seq![c], columns, rows));
        }
        if c != '\n' {
            self.input_buffer.push(c);
            return false;
        }
        let shutdown = vec!['s', 'h', 'u', 't', 'd', 'o', 'w', 'n'];
        let help = vec!['h', 'e', 'l', 'p'];
        assert(shutdown@ =~= shutdown_command());
        assert(help@ =~= help_command());
        if same_chars(&self.input_buffer, &shutdown) {
            let message = vec![
                '\n',
                's',
                'h',
                'u',
                't',
                't',
                'i',
                'n',
                'g',
                ' ',
                'd',
                'o',
                'w',
                'n',
                '.',
                '.',
                '.',
                '\n',
            ];
            assert(message@ =~= shutdown_message());
            self.logger.write_chars(&message);
            proof {
                lemma_after_text_concat(start, seq![c], shutdown_message(), columns, rows);
            }
            return true;
        }
        let ghost after_typed = self.logger.text();
        let ghost mut said = seq![c];
        if same_chars(&self.input_buffer, &help) {
            let message = vec![
                'T', 'h', 'i', 's', ' ', 'i', 's', ' ', 'R', 'u', 's', 't', ' ', 'O', 'S', '!', ' ', 'C',
                'o', 'm', 'm', 'a', 'n', 'd', 's', ' ', 'l', 'i', 's', 't', ':', '\n', '-', ' ', 'h', 'e',
                'l', 'p', '\n', '-', ' ', 's', 'h', 'u', 't', 'd', 'o', 'w', 'n', '\n',
            ];
            assert(message@ =~= help_message());
            self.logger.write_chars(&message);
            proof {
                lemma_after_text_concat(start, seq![c], help_message(), columns, rows);
                said = seq![c] + help_message();
            }
        }
        self.input_buffer.clear();
        let prompt_chars = vec!['#', ' '];
        assert(prompt_chars@ =~= prompt());
        self.logger.write_chars(&prompt_chars);
        proof {
            lemma_after_text_concat(start, said, prompt(), columns, rows);
        }
        false
    }
}

} // verus!
