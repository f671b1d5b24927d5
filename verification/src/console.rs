//! The console: startup parameters, queued input and pending output.
//!
//! The console is modelled as pure state: what it would print
//! accumulates in `out`, and what the user would type is a queue of
//! lines in `input`.  The surrounding program drains the one and feeds
//! the other; everything the console computes is verified here.
use vstd::prelude::*;

use crate::credentials::{CredModel, PostgresCredentials};
use crate::text::{trim_spec, trim_str, unlines};

verus! {

/// The console's state.
pub struct IOControl {
    startup_parameters: Vec<(String, String)>,
    input: Vec<String>,
    out: String,
}

/// The mathematical shape of the console.
#[verifier::ext_equal]
pub struct ConsoleModel {
    pub params: Seq<(Seq<char>, Seq<char>)>,
    pub input: Seq<Seq<char>>,
    pub out: Seq<char>,
}

impl View for IOControl {
    type V = ConsoleModel;

    closed spec fn view(&self) -> ConsoleModel {
        ConsoleModel {
            params: self.startup_parameters@.map_values(|p: (String, String)| (p.0@, p.1@)),
            input: self.input.deep_view(),
            out: self.out@,
        }
    }
}

/// The key/value pairs read off the argument list: arguments pair up in
/// order, each key losing its leading marker character; a trailing
/// unpaired argument is dropped.
pub open spec fn params_of_args(args: Seq<Seq<char>>) -> Seq<(Seq<char>, Seq<char>)> {
    Seq::new((args.len() / 2) as nat, |k: int| (args[2 * k].drop_first(), args[2 * k + 1]))
}

/// The escape sequence that clears the screen and homes the cursor.
pub open spec fn clear_seq() -> Seq<char> {
    "\x1B[2J\x1B[1;1H"@
}

/// What asking for input does: the prompt and a space are printed, and
/// the front queued line, trimmed, is the answer if one is there.
pub open spec fn ask_spec(input: Seq<Seq<char>>, out: Seq<char>, title: Seq<char>) -> (
    Option<Seq<char>>,
    Seq<Seq<char>>,
    Seq<char>,
) {
    let out2 = out + title + " "@;
    if input.len() > 0 {
        (Some(trim_spec(input[0])), input.drop_first(), out2)
    } else {
        (None, input, out2)
    }
}

/// One credential field: asked for only when the condition holds, and
/// replaced only when an answer was there.
pub open spec fn fill_spec(
    cond: bool,
    cur: Seq<char>,
    title: Seq<char>,
    input: Seq<Seq<char>>,
    out: Seq<char>,
) -> (Seq<char>, Seq<Seq<char>>, Seq<char>) {
    if cond {
        let r = ask_spec(input, out, title);
        match r.0 {
            Some(v) => (v, r.1, r.2),
            None => (cur, r.1, r.2),
        }
    } else {
        (cur, input, out)
    }
}

/// Completing credentials asks, in order, for each empty field: host,
/// username, password (only if one is required), database.
pub open spec fn complete_spec(c: CredModel, input: Seq<Seq<char>>, out: Seq<char>) -> (
    CredModel,
    Seq<Seq<char>>,
    Seq<char>,
) {
    let s1 = fill_spec(c.host.len() == 0, c.host, "Host:"@, input, out);
    let s2 = fill_spec(c.username.len() == 0, c.username, "Username:"@, s1.1, s1.2);
    let s3 = fill_spec(
        c.password.len() == 0 && c.pass_required,
        c.password,
        "Password:"@,
        s2.1,
        s2.2,
    );
    let s4 = fill_spec(c.database.len() == 0, c.database, "Database:"@, s3.1, s3.2);
    (
        CredModel {
            host: s1.0,
            username: s2.0,
            password: s3.0,
            database: s4.0,
            pass_required: c.pass_required,
        },
        s4.1,
        s4.2,
    )
}

/// A run of spaces.
pub open spec fn spaces(n: int) -> Seq<char> {
    Seq::new(
        if n >= 0 {
            n as nat
        } else {
            0
        },
        |i: int| ' ',
    )
}

/// A cell padded and centred to a fixed width: an over-long value is
/// cut and marked, and the odd spare space goes before the value.
pub open spec fn pad_spec(s: Seq<char>, n: int) -> Seq<char> {
    let shown = if s.len() > n {
        s.take(n - 5) + "(...)"@
    } else {
        s
    };
    let pad_len = n - shown.len();
    let half = pad_len / 2;
    spaces(half) + (if half * 2 < pad_len {
        " "@
    } else {
        Seq::<char>::empty()
    }) + shown + spaces(half)
}

/// The body of one table line: each cell padded, walled off by pipes.
pub open spec fn row_cells_spec(cells: Seq<Seq<char>>, n: int) -> Seq<char>
    decreases cells.len(),
{
    if cells.len() == 0 {
        Seq::<char>::empty()
    } else {
        row_cells_spec(cells.drop_last(), n) + pad_spec(cells.last(), n) + " | "@
    }
}

/// One table line, its trailing space removed.
pub open spec fn table_row_line_spec(cells: Seq<Seq<char>>, n: int) -> Seq<char> {
    let full = "| "@ + row_cells_spec(cells, n);
    full.take(full.len() - 1)
}

/// The lines of one rendered table: the header line, then the rows.
pub open spec fn table_lines_of(
    header: Seq<Seq<char>>,
    values: Seq<Seq<Seq<char>>>,
    n: int,
) -> Seq<Seq<char>> {
    seq![table_row_line_spec(header, n)] + values.map_values(
        |r: Seq<Seq<char>>| table_row_line_spec(r, n),
    )
}

/// The views of a list of borrowed titles.
pub open spec fn titles_view(titles: Seq<&str>) -> Seq<Seq<char>> {
    titles.map_values(|t: &str| t@)
}

/// A run of line breaks.
pub open spec fn newlines(n: int) -> Seq<char> {
    Seq::new(
        if n >= 0 {
            n as nat
        } else {
            0
        },
        |i: int| '\n',
    )
}

/// One centred banner title line.
pub open spec fn announce_title_line(t: Seq<char>, w: int) -> Seq<char> {
    let left = if w >= t.len() {
        (w - t.len()) / 2
    } else {
        0
    };
    spaces(left) + t + "\n"@
}

pub open spec fn announce_titles(titles: Seq<Seq<char>>, w: int) -> Seq<char>
    decreases titles.len(),
{
    if titles.len() == 0 {
        Seq::<char>::empty()
    } else {
        announce_titles(titles.drop_last(), w) + announce_title_line(titles.last(), w)
    }
}

/// The banner printed for a terminal of the given size: blank lines
/// above, each title centred, blank lines below.
pub open spec fn announce_block(titles: Seq<Seq<char>>, w: int, h: int) -> Seq<char> {
    let top = if h / 2 >= titles.len() + 2 {
        h / 2 - titles.len() - 2
    } else {
        0
    };
    newlines(top) + announce_titles(titles, w) + newlines(h / 2)
}

/// Relies on term_size::dimensions for the terminal's (width, height);
/// the result depends on the machine and the moment, so nothing is
/// promised of it.
#[verifier::external_body]
fn terminal_dimensions() -> (r: Option<(usize, usize)>) {
    term_size::dimensions()
}

impl IOControl {
    /// Queue a centred banner for a terminal of the given size.
    pub fn announce_with_dimensions(&mut self, titles: &[&str], w: usize, h: usize)
        ensures
            final(self)@.params == old(self)@.params,
            final(self)@.input == old(self)@.input,
            final(self)@.out == old(self)@.out + announce_block(
                titles@.map_values(|t: &str| t@),
                w as int,
                h as int,
            ),
    {
        let ghost tm = titles@.map_values(|t: &str| t@);
        proof {
            reveal_strlit("\n");
            reveal_strlit(" ");
            assert("\n"@ =~= seq!['\n']);
            assert(" "@ =~= seq![' ']);
        }
        let half = h / 2;
        let tcount = titles.len();
        let top_pad = if half >= 2 && half - 2 >= tcount {
            half - tcount - 2
        } else {
            0
        };
        proof {
            assert(top_pad as int == (if (h as int) / 2 >= tm.len() + 2 {
                (h as int) / 2 - tm.len() - 2
            } else {
                0
            }));
        }
        let ghost base = self@.out;
        let mut k: usize = 0;
        while k < top_pad
            invariant
                0 <= k <= top_pad,
                "\n"@ == seq!['\n'],
                self@.params == old(self)@.params,
                self@.input == old(self)@.input,
                self@.out == base + newlines(k as int),
                base == old(self)@.out,
            decreases top_pad - k,
        {
            self.out.append("\n");
            proof {
                assert(newlines(k as int) + seq!['\n'] =~= newlines(k + 1));
                assert(base + newlines(k as int) + seq!['\n'] =~= base + newlines(k + 1));
            }
            k += 1;
        }
        proof {
            assert(tm.take(0) =~= Seq::<Seq<char>>::empty());
            assert(self@.out + announce_titles(tm.take(0), w as int) =~= self@.out);
        }
        let ghost base2 = self@.out;
        let mut t_i: usize = 0;
        while t_i < titles.len()
            invariant
                0 <= t_i <= titles.len(),
                "\n"@ == seq!['\n'],
                " "@ == seq![' '],
                tm == titles@.map_values(|t: &str| t@),
                tm.len() == titles.len(),
                self@.params == old(self)@.params,
                self@.input == old(self)@.input,
                self@.out == base2 + announce_titles(tm.take(t_i as int), w as int),
            decreases titles.len() - t_i,
        {
            let t = titles[t_i];
            let tlen = t.unicode_len();
            let left_pad = if w >= tlen {
                (w - tlen) / 2
            } else {
                0
            };
            let ghost line_base = self@.out;
            let mut l_i: usize = 0;
            while l_i < left_pad
                invariant
                    0 <= l_i <= left_pad,
                    " "@ == seq![' '],
                    self@.params == old(self)@.params,
                    self@.input == old(self)@.input,
                    self@.out == line_base + spaces(l_i as int),
                decreases left_pad - l_i,
            {
                self.out.append(" ");
                proof {
                    assert(spaces(l_i as int) + seq![' '] =~= spaces(l_i + 1));
                    assert(line_base + spaces(l_i as int) + seq![' '] =~= line_base + spaces(
                        l_i + 1,
                    ));
                }
                l_i += 1;
            }
            self.out.append(t);
            self.out.append("\n");
            proof {
                assert(tm[t_i as int] == titles@[t_i as int]@);
                assert(tm.take(t_i + 1).drop_last() =~= tm.take(t_i as int));
                assert(tm.take(t_i + 1).last() == tm[t_i as int]);
                assert(left_pad as int == (if w as int >= tm[t_i as int].len() {
                    (w as int - tm[t_i as int].len()) / 2
                } else {
                    0
                }));
                assert(self@.out =~= base2 + announce_titles(tm.take(t_i + 1), w as int));
            }
            t_i += 1;
        }
        proof {
            assert(tm.take(titles.len() as int) =~= tm);
        }
        let ghost base3 = self@.out;
        let mut b_i: usize = 0;
        while b_i < half
            invariant
                0 <= b_i <= half,
                "\n"@ == seq!['\n'],
                self@.params == old(self)@.params,
                self@.input == old(self)@.input,
                self@.out == base3 + newlines(b_i as int),
            decreases half - b_i,
        {
            self.out.append("\n");
            proof {
                assert(newlines(b_i as int) + seq!['\n'] =~= newlines(b_i + 1));
                assert(base3 + newlines(b_i as int) + seq!['\n'] =~= base3 + newlines(b_i + 1));
            }
            b_i += 1;
        }
        proof {
            assert(self@.out =~= old(self)@.out + announce_block(tm, w as int, h as int));
        }
    }

    /// Clear the screen and queue a centred banner sized to the
    /// terminal; without a terminal, only the clear is queued.
    pub fn announce(&mut self, titles: &[&str])
        ensures
            final(self)@.params == old(self)@.params,
            final(self)@.input == old(self)@.input,
            final(self)@.out == old(self)@.out + clear_seq() || exists|w: int, h: int|
                final(self)@.out == old(self)@.out + clear_seq() + #[trigger] announce_block(
                    titles_view(titles@),
                    w,
                    h,
                ),
    {
        self.clear();
        match terminal_dimensions() {
            Some((w, h)) => {
                self.announce_with_dimensions(titles, w, h);
                proof {
                    assert(titles_view(titles@) == titles@.map_values(|t: &str| t@));
                    assert(self@.out == old(self)@.out + clear_seq() + announce_block(
                        titles_view(titles@),
                        w as int,
                        h as int,
                    ));
                }
            },
            None => {},
        }
    }

    /// The terminal's width, if the process has a terminal.
    pub fn width(&self) -> Option<usize> {
        match terminal_dimensions() {
            Some((w, _)) => Some(w),
            None => None,
        }
    }

    /// Build a console from the argument list (program name already
    /// removed); keys must be non-empty, as each loses its marker.
    pub fn create(input_args: Vec<String>) -> (r: IOControl)
        requires
            forall|i: int|
                0 <= i < input_args@.len() && i % 2 == 0 && i + 1 < input_args@.len()
                    ==> (#[trigger] input_args@[i])@.len() >= 1,
        ensures
            r@.params == params_of_args(input_args.deep_view()),
            r@.input == Seq::<Seq<char>>::empty(),
            r@.out == Seq::<char>::empty(),
    {
        let ghost args = input_args.deep_view();
        let mut parsed: Vec<(String, String)> = Vec::new();
        let count = input_args.len();
        let mut i: usize = 1;
        proof {
            assert(args.len() == count);
            assert(parsed@.map_values(|p: (String, String)| (p.0@, p.1@)) =~= params_of_args(
                args,
            ).take(0));
        }
        while i < count
            invariant
                args == input_args.deep_view(),
                args.len() == count,
                count == input_args@.len(),
                forall|k: int|
                    0 <= k < args.len() && k % 2 == 0 && k + 1 < args.len()
                        ==> (#[trigger] input_args@[k])@.len() >= 1,
                1 <= i,
                i % 2 == 1,
                i <= count + 1,
                parsed@.map_values(|p: (String, String)| (p.0@, p.1@)) == params_of_args(
                    args,
                ).take((i / 2) as int),
            decreases count + 1 - i,
        {
            let key_full = &input_args[i - 1];
            let klen = key_full.as_str().unicode_len();
            proof {
                assert((i - 1) % 2 == 0);
                assert(input_args@[i - 1]@.len() >= 1);
            }
            let key = key_full.as_str().substring_char(1, klen).to_owned();
            let value = input_args[i].clone();
            let ghost prev = parsed@.map_values(|p: (String, String)| (p.0@, p.1@));
            let ghost kv = key@;
            let ghost vv = value@;
            parsed.push((key, value));
            proof {
                let full = params_of_args(args);
                let k: int = i as int / 2;
                assert(parsed@.map_values(|p: (String, String)| (p.0@, p.1@)) =~= prev.push(
                    (kv, vv),
                ));
                assert(args[2 * k] == input_args@[i - 1]@);
                assert(args[2 * k + 1] == input_args@[i as int]@);
                assert(kv =~= args[2 * k].drop_first());
                assert(full[k] == (args[2 * k].drop_first(), args[2 * k + 1]));
                assert(full.take(k + 1) =~= full.take(k).push(full[k]));
                assert(parsed@.map_values(|p: (String, String)| (p.0@, p.1@)) =~= full.take(
                    k + 1,
                ));
            }
            i += 2;
        }
        proof {
            assert(params_of_args(args).take((i / 2) as int) =~= params_of_args(args));
        }
        let r = IOControl { startup_parameters: parsed, input: Vec::new(), out: String::new() };
        proof {
            assert(r@.input =~= Seq::<Seq<char>>::empty());
        }
        r
    }

    pub fn get_startup_parameters(&self) -> (r: &Vec<(String, String)>)
        ensures
            r@.map_values(|p: (String, String)| (p.0@, p.1@)) == self@.params,
    {
        &self.startup_parameters
    }

    /// Queue one line of typed input for later prompts.
    pub fn push_input(&mut self, line: String)
        ensures
            final(self)@.params == old(self)@.params,
            final(self)@.input == old(self)@.input.push(line@),
            final(self)@.out == old(self)@.out,
    {
        let ghost prev = self@.input;
        let ghost lv = line@;
        self.input.push(line);
        proof {
            assert(self@.input =~= prev.push(lv));
        }
    }

    pub fn has_queued_input(&self) -> (r: bool)
        ensures
            r == (self@.input.len() > 0),
    {
        self.input.len() > 0
    }

    /// Hand the accumulated output over for printing, leaving none.
    pub fn take_output(&mut self) -> (r: String)
        ensures
            r@ == old(self)@.out,
            final(self)@.params == old(self)@.params,
            final(self)@.input == old(self)@.input,
            final(self)@.out == Seq::<char>::empty(),
    {
        let r = self.out.clone();
        self.out = String::new();
        r
    }

    /// Queue the clear-screen escape sequence.
    pub fn clear(&mut self)
        ensures
            final(self)@.params == old(self)@.params,
            final(self)@.input == old(self)@.input,
            final(self)@.out == old(self)@.out + clear_seq(),
    {
        self.out.append("\x1B[2J\x1B[1;1H");
    }

    /// Print a prompt and take the next queued input line, trimmed.
    pub fn ask_for(&mut self, title: &str) -> (r: Option<String>)
        ensures
            final(self)@.params == old(self)@.params,
            ({
                let a = ask_spec(old(self)@.input, old(self)@.out, title@);
                &&& (match r {
                    Some(s) => a.0 == Some(s@),
                    None => a.0 is None,
                })
                &&& final(self)@.input == a.1
                &&& final(self)@.out == a.2
            }),
    {
        self.out.append(title);
        self.out.append(" ");
        if self.input.len() > 0 {
            let ghost prev = self@.input;
            let line = self.input.remove(0);
            proof {
                assert(self@.input =~= prev.drop_first());
                assert(line@ == prev[0]);
            }
            Some(trim_str(line.as_str()))
        } else {
            None
        }
    }

    /// Queue one line of output.
    pub fn publish(&mut self, l: &str)
        ensures
            final(self)@.params == old(self)@.params,
            final(self)@.input == old(self)@.input,
            final(self)@.out == old(self)@.out + l@ + "\n"@,
    {
        self.out.append(l);
        self.out.append("\n");
    }

    /// Queue several lines of output.
    pub fn publish_lines(&mut self, lines: &[String])
        ensures
            final(self)@.params == old(self)@.params,
            final(self)@.input == old(self)@.input,
            final(self)@.out == old(self)@.out + unlines(lines@.map_values(|s: String| s@)),
    {
        let ghost lm = lines@.map_values(|s: String| s@);
        let mut i: usize = 0;
        proof {
            assert(lm.take(0) =~= Seq::<Seq<char>>::empty());
            assert(old(self)@.out + unlines(lm.take(0)) =~= old(self)@.out);
        }
        while i < lines.len()
            invariant
                0 <= i <= lines.len(),
                lm == lines@.map_values(|s: String| s@),
                lm.len() == lines.len(),
                self@.params == old(self)@.params,
                self@.input == old(self)@.input,
                self@.out == old(self)@.out + unlines(lm.take(i as int)),
            decreases lines.len() - i,
        {
            self.out.append(lines[i].as_str());
            self.out.append("\n");
            proof {
                reveal_strlit("\n");
                assert(lm.take(i + 1) =~= lm.take(i as int).push(lm[i as int]));
                crate::text::lemma_unlines_concat(lm.take(i as int), seq![lm[i as int]]);
                assert(lm.take(i as int) + seq![lm[i as int]] =~= lm.take(i + 1));
                assert(unlines(seq![lm[i as int]]) =~= lm[i as int] + seq!['\n']) by {
                    let sl = seq![lm[i as int]];
                    assert(sl.drop_first() =~= Seq::<Seq<char>>::empty());
                    assert(unlines(Seq::<Seq<char>>::empty()) == Seq::<char>::empty());
                    assert(unlines(sl) == sl[0] + seq!['\n'] + unlines(sl.drop_first()));
                }
                assert("\n"@ =~= seq!['\n']);
                assert(self@.out =~= old(self)@.out + unlines(lm.take(i + 1)));
            }
            i += 1;
        }
        proof {
            assert(lm.take(lines.len() as int) =~= lm);
        }
    }

    /// Announce an invalid command with its usage line.
    pub fn command_error(&mut self, command: &str, usage: &str)
        ensures
            final(self)@.params == old(self)@.params,
            final(self)@.input == old(self)@.input,
            final(self)@.out == old(self)@.out + "Invalid usage!"@ + "\n"@ + command@ + ": "@
                + usage@ + "\n"@,
    {
        self.out.append("Invalid usage!");
        self.out.append("\n");
        self.out.append(command);
        self.out.append(": ");
        self.out.append(usage);
        self.out.append("\n");
    }

    /// A placeholder kept for interface parity; it does nothing.
    pub fn start_loading(&self)
    {
    }

    /// Fill each still-empty credential field from the queued input,
    /// prompting for exactly the fields that are empty.
    pub fn complete_credentials(&mut self, credentials: &mut PostgresCredentials)
        ensures
            final(self)@.params == old(self)@.params,
            ({
                let c = complete_spec(old(credentials)@, old(self)@.input, old(self)@.out);
                &&& final(credentials)@ == c.0
                &&& final(self)@.input == c.1
                &&& final(self)@.out == c.2
            }),
    {
        if credentials.host.as_str().is_empty() {
            if let Some(r) = self.ask_for("Host:") {
                credentials.host = r;
            }
        }
        if credentials.username.as_str().is_empty() {
            if let Some(r) = self.ask_for("Username:") {
                credentials.username = r;
            }
        }
        if credentials.password.as_str().is_empty() && credentials.pass_required {
            if let Some(r) = self.ask_for("Password:") {
                credentials.password = r;
            }
        }
        if credentials.database.as_str().is_empty() {
            if let Some(r) = self.ask_for("Database:") {
                credentials.database = r;
            }
        }
        proof {
            let c = complete_spec(old(credentials)@, old(self)@.input, old(self)@.out);
            assert(credentials@ =~= c.0);
        }
    }

    /// Pad one cell to the column width.
    fn pad_value(&self, input: String, fixed_size: usize) -> (r: String)
        requires
            fixed_size >= 5,
        ensures
            r@ == pad_spec(input@, fixed_size as int),
    {
        let ghost iv = input@;
        let mut shown = input;
        let mut val_size = shown.as_str().unicode_len();
        proof {
            reveal_strlit("(...)");
            assert("(...)"@.len() == 5);
        }
        if val_size > fixed_size {
            let cut = shown.as_str().substring_char(0, fixed_size - 5).to_owned();
            shown = cut;
            shown.append("(...)");
            val_size = fixed_size;
            proof {
                assert(shown@ =~= iv.take(fixed_size - 5) + "(...)"@);
                assert(shown@.len() == fixed_size);
            }
        }
        let pad_len = fixed_size - val_size;
        let half = pad_len / 2;
        let mut pad = String::new();
        let mut k: usize = 0;
        proof {
            reveal_strlit(" ");
            assert(" "@ =~= seq![' ']);
            assert(pad@ =~= spaces(0));
        }
        while k < half
            invariant
                0 <= k <= half,
                " "@ == seq![' '],
                pad@ == spaces(k as int),
            decreases half - k,
        {
            pad.append(" ");
            proof {
                assert(spaces(k as int) + seq![' '] =~= spaces(k + 1));
            }
            k += 1;
        }
        let mut line = pad.clone();
        if half * 2 < pad_len {
            line.append(" ");
        }
        line.append(shown.as_str());
        line.append(pad.as_str());
        proof {
            assert(line@ =~= pad_spec(iv, fixed_size as int));
        }
        line
    }

    /// One rendered table line.
    fn table_line(&self, cells: &[String], col_size: usize) -> (r: String)
        requires
            col_size >= 5,
        ensures
            r@ == table_row_line_spec(cells@.map_values(|s: String| s@), col_size as int),
    {
        let ghost cm = cells@.map_values(|s: String| s@);
        let mut line = String::new();
        line.append("| ");
        let mut i: usize = 0;
        proof {
            assert(cm.take(0) =~= Seq::<Seq<char>>::empty());
            assert(line@ =~= "| "@ + row_cells_spec(cm.take(0), col_size as int));
        }
        while i < cells.len()
            invariant
                0 <= i <= cells.len(),
                col_size >= 5,
                cm == cells@.map_values(|s: String| s@),
                cm.len() == cells.len(),
                line@ == "| "@ + row_cells_spec(cm.take(i as int), col_size as int),
            decreases cells.len() - i,
        {
            let padded = self.pad_value(cells[i].clone(), col_size);
            line.append(padded.as_str());
            line.append(" | ");
            proof {
                assert(cm.take(i + 1).drop_last() =~= cm.take(i as int));
                assert(cm.take(i + 1).last() == cm[i as int]);
                assert(cm[i as int] == cells@[i as int]@);
                assert(line@ =~= "| "@ + row_cells_spec(cm.take(i + 1), col_size as int));
            }
            i += 1;
        }
        proof {
            assert(cm.take(cells.len() as int) =~= cm);
            reveal_strlit("| ");
            assert("| "@.len() == 2);
        }
        let full_len = line.as_str().unicode_len();
        let r = line.as_str().substring_char(0, full_len - 1).to_owned();
        proof {
            let full = "| "@ + row_cells_spec(cm, col_size as int);
            assert(r@ =~= full.take(full.len() - 1));
        }
        r
    }

    /// Render a table: a header line, then one line per row, each cell
    /// padded to the column width, and queue the lines for printing.
    pub fn create_table(&mut self, header: &[String], values: Vec<Vec<String>>, col_size: usize)
        requires
            col_size >= 5,
        ensures
            final(self)@.params == old(self)@.params,
            final(self)@.input == old(self)@.input,
            final(self)@.out == old(self)@.out + unlines(
                table_lines_of(
                    header@.map_values(|s: String| s@),
                    values.deep_view(),
                    col_size as int,
                ),
            ),
    {
        let ghost hm = header@.map_values(|s: String| s@);
        let ghost vm = values.deep_view();
        let ghost expected = table_lines_of(hm, vm, col_size as int);
        let mut lines: Vec<String> = Vec::new();
        let head = self.table_line(header, col_size);
        lines.push(head);
        let ghost body = vm.map_values(|r: Seq<Seq<char>>| table_row_line_spec(r, col_size as int));
        proof {
            assert(lines@.map_values(|s: String| s@) =~= seq![table_row_line_spec(
                hm,
                col_size as int,
            )] + body.take(0));
        }
        let mut i: usize = 0;
        while i < values.len()
            invariant
                0 <= i <= values.len(),
                col_size >= 5,
                hm == header@.map_values(|s: String| s@),
                vm == values.deep_view(),
                vm.len() == values.len(),
                body == vm.map_values(|r: Seq<Seq<char>>| table_row_line_spec(r, col_size as int)),
                lines@.len() == 1 + i,
                lines@.map_values(|s: String| s@) =~= seq![table_row_line_spec(
                    hm,
                    col_size as int,
                )] + body.take(i as int),
            decreases values.len() - i,
        {
            let row_line = self.table_line(&values[i], col_size);
            let ghost lv = row_line@;
            let ghost prev = lines@.map_values(|s: String| s@);
            lines.push(row_line);
            proof {
                assert(lines@.map_values(|s: String| s@) =~= prev.push(lv));
                assert(vm[i as int] == values@[i as int].deep_view());
                assert(values@[i as int].deep_view() =~= values@[i as int]@.map_values(
                    |s: String| s@,
                ));
                assert(body.take(i + 1) =~= body.take(i as int).push(body[i as int]));
            }
            i += 1;
        }
        proof {
            assert(body.take(values.len() as int) =~= body);
            assert(lines@.map_values(|s: String| s@) =~= expected);
        }
        self.publish_lines(lines.as_slice());
    }
}

} // verus!
