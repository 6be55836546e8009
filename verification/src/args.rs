//! Command-line options.
use crate::text;
use crate::text::{chars_of, find_char, parse_u64, parse_usize, slice_chars, str_eq, string_of};
use vstd::prelude::*;
use vstd::string::*;

verus! {

/// The options of one run.
#[derive(Debug)]
pub struct Args {
    /// Which part of the book title to keep: 0 all, 1 the part before the
    /// brackets, 2 the part inside them.
    pub title: usize,
    pub help: bool,
    pub url: String,
    /// Do not upload the book.
    pub no_upload: bool,
    /// Do not upload the cache directory.
    pub no_upload_cache: bool,
    /// Seconds to wait for a challenge page to clear.
    pub sleep: u64,
    /// How many times a page is tried.
    pub retry: usize,
    pub proxy: String,
    /// Title corrections, as JSON.
    pub new_title: String,
    /// Leave images out.
    pub no_img: bool,
}

/// The options, with their text as character sequences.
pub struct ArgsView {
    pub title: usize,
    pub help: bool,
    pub url: Seq<char>,
    pub no_upload: bool,
    pub no_upload_cache: bool,
    pub sleep: u64,
    pub retry: usize,
    pub proxy: Seq<char>,
    pub new_title: Seq<char>,
    pub no_img: bool,
}

impl View for Args {
    type V = ArgsView;

    open spec fn view(&self) -> ArgsView {
        ArgsView {
            title: self.title,
            help: self.help,
            url: self.url@,
            no_upload: self.no_upload,
            no_upload_cache: self.no_upload_cache,
            sleep: self.sleep,
            retry: self.retry,
            proxy: self.proxy@,
            new_title: self.new_title@,
            no_img: self.no_img,
        }
    }
}

/// Why a command line is refused.
#[derive(Debug, PartialEq, Eq)]
pub enum ArgsError {
    TitleMissing,
    TitleInvalid,
    SleepMissing,
    SleepInvalid,
    RetryMissing,
    RetryInvalid,
    ProxyMissing,
    NewTitleMissing,
}

/// The options before any argument is read.
pub open spec fn default_args() -> ArgsView {
    ArgsView {
        title: 1,
        help: false,
        url: seq![],
        no_upload: false,
        no_upload_cache: false,
        sleep: 5,
        retry: 3,
        proxy: seq![],
        new_title: seq![],
        no_img: false,
    }
}

/// The part of the title `t` that `mode` selects: with 1 the part before the
/// brackets, with 2 the part inside them, when `t` has the form `A(B)`
/// with `A` non-empty; `t` itself otherwise.
pub open spec fn select_title_spec(mode: usize, t: Seq<char>) -> Seq<char> {
    if mode == 0 {
        t
    } else {
        match (t.index_of_first('('), t.index_of_first(')')) {
            (Some(b), Some(e)) => if e == t.len() - 1 && b != 0 {
                if mode == 1 {
                    t.take(b)
                } else if mode == 2 {
                    t.subrange(b + 1, e)
                } else {
                    t
                }
            } else {
                t
            },
            _ => t,
        }
    }
}

/// The options after reading `args` from position `i` on, starting from `acc`.
pub open spec fn parse_args_from(args: Seq<Seq<char>>, i: int, acc: ArgsView) -> Result<
    ArgsView,
    ArgsError,
>
    decreases args.len() - i,
{
    if i < 0 || i >= args.len() {
        Ok(acc)
    } else {
        let a = args[i];
        if a == "--title"@ {
            if i + 1 >= args.len() {
                Err(ArgsError::TitleMissing)
            } else {
                match text::parse_unsigned(args[i + 1], usize::MAX as nat) {
                    Some(t) => if t > 2 {
                        Err(ArgsError::TitleInvalid)
                    } else {
                        parse_args_from(args, i + 2, ArgsView { title: t as usize, ..acc })
                    },
                    None => Err(ArgsError::TitleInvalid),
                }
            }
        } else if a == "--help"@ {
            Ok(ArgsView { help: true, ..acc })
        } else if a == "--no-up"@ {
            parse_args_from(args, i + 1, ArgsView { no_upload: true, ..acc })
        } else if a == "--sleep"@ {
            if i + 1 >= args.len() {
                Err(ArgsError::SleepMissing)
            } else {
                match text::parse_unsigned(args[i + 1], u64::MAX as nat) {
                    Some(t) => parse_args_from(args, i + 2, ArgsView { sleep: t as u64, ..acc }),
                    None => Err(ArgsError::SleepInvalid),
                }
            }
        } else if a == "--retry"@ {
            if i + 1 >= args.len() {
                Err(ArgsError::RetryMissing)
            } else {
                match text::parse_unsigned(args[i + 1], usize::MAX as nat) {
                    Some(t) => parse_args_from(args, i + 2, ArgsView { retry: t as usize, ..acc }),
                    None => Err(ArgsError::RetryInvalid),
                }
            }
        } else if a == "--proxy"@ {
            if i + 1 >= args.len() {
                Err(ArgsError::ProxyMissing)
            } else {
                parse_args_from(args, i + 2, ArgsView { proxy: args[i + 1], ..acc })
            }
        } else if a == "--nt"@ {
            if i + 1 >= args.len() {
                Err(ArgsError::NewTitleMissing)
            } else {
                parse_args_from(args, i + 2, ArgsView { new_title: args[i + 1], ..acc })
            }
        } else {
            parse_args_from(args, i + 1, ArgsView { url: a, ..acc })
        }
    }
}

/// The options that the arguments (program name excluded) select.
pub open spec fn parse_args(args: Seq<Seq<char>>) -> Result<ArgsView, ArgsError> {
    parse_args_from(args, 0, default_args())
}

/// Reading on from any state whose title part is at most 2 never yields a
/// larger one.
pub proof fn lemma_parse_title_bound(args: Seq<Seq<char>>, i: int, acc: ArgsView)
    requires
        acc.title <= 2,
    ensures
        parse_args_from(args, i, acc) matches Ok(a) ==> a.title <= 2,
    decreases args.len() - i,
{
    if 0 <= i < args.len() {
        let a = args[i];
        if a == "--title"@ {
            if i + 1 < args.len() {
                match text::parse_unsigned(args[i + 1], usize::MAX as nat) {
                    Some(t) => if t <= 2 {
                        lemma_parse_title_bound(args, i + 2, ArgsView { title: t as usize, ..acc });
                    },
                    None => {},
                }
            }
        } else if a == "--help"@ {
        } else if a == "--no-up"@ {
            lemma_parse_title_bound(args, i + 1, ArgsView { no_upload: true, ..acc });
        } else if a == "--sleep"@ {
            if i + 1 < args.len() {
                match text::parse_unsigned(args[i + 1], u64::MAX as nat) {
                    Some(t) => {
                        lemma_parse_title_bound(args, i + 2, ArgsView { sleep: t as u64, ..acc });
                    },
                    None => {},
                }
            }
        } else if a == "--retry"@ {
            if i + 1 < args.len() {
                match text::parse_unsigned(args[i + 1], usize::MAX as nat) {
                    Some(t) => {
                        lemma_parse_title_bound(
                            args,
                            i + 2,
                            ArgsView { retry: t as usize, ..acc },
                        );
                    },
                    None => {},
                }
            }
        } else if a == "--proxy"@ {
            if i + 1 < args.len() {
                lemma_parse_title_bound(args, i + 2, ArgsView { proxy: args[i + 1], ..acc });
            }
        } else if a == "--nt"@ {
            if i + 1 < args.len() {
                lemma_parse_title_bound(args, i + 2, ArgsView { new_title: args[i + 1], ..acc });
            }
        } else {
            lemma_parse_title_bound(args, i + 1, ArgsView { url: a, ..acc });
        }
    }
}

/// The result of reading on with `acc`, with the field set by `f` then set
/// again: what setting a field before reading does to the result.
pub open spec fn after_read(r: Result<ArgsView, ArgsError>, f: spec_fn(ArgsView) -> ArgsView) -> Result<
    ArgsView,
    ArgsError,
> {
    match r {
        Ok(b) => Ok(f(b)),
        Err(e) => Err(e),
    }
}

/// No argument from position `i` on is `opt`.
pub open spec fn lacks_option(args: Seq<Seq<char>>, i: int, opt: Seq<char>) -> bool {
    forall|j: int| i <= j < args.len() ==> args[j] != opt
}

/// Reading the arguments after a prefix `p` is reading them on their own.
proof fn lemma_parse_shift(p: Seq<Seq<char>>, rest: Seq<Seq<char>>, i: int, acc: ArgsView)
    requires
        0 <= i,
    ensures
        parse_args_from(p + rest, p.len() + i, acc) == parse_args_from(rest, i, acc),
    decreases rest.len() - i,
{
    let full = p + rest;
    if i < rest.len() {
        assert(full[p.len() + i] == rest[i]);
        if i + 1 < rest.len() {
            assert(full[p.len() + i + 1] == rest[i + 1]);
        }
    }
    let args = rest;
    if 0 <= i < args.len() {
        let a = args[i];
        if a == "--title"@ {
            if i + 1 < args.len() {
                match text::parse_unsigned(args[i + 1], usize::MAX as nat) {
                    Some(t) => if t <= 2 {
                        lemma_parse_shift(p, rest, i + 2, ArgsView { title: t as usize, ..acc });
                    },
                    None => {},
                }
            }
        } else if a == "--help"@ {
        } else if a == "--no-up"@ {
            lemma_parse_shift(p, rest, i + 1, ArgsView { no_upload: true, ..acc });
        } else if a == "--sleep"@ {
            if i + 1 < args.len() {
                match text::parse_unsigned(args[i + 1], u64::MAX as nat) {
                    Some(t) => {
                        lemma_parse_shift(p, rest, i + 2, ArgsView { sleep: t as u64, ..acc });
                    },
                    None => {},
                }
            }
        } else if a == "--retry"@ {
            if i + 1 < args.len() {
                match text::parse_unsigned(args[i + 1], usize::MAX as nat) {
                    Some(t) => {
                        lemma_parse_shift(p, rest, i + 2, ArgsView { retry: t as usize, ..acc });
                    },
                    None => {},
                }
            }
        } else if a == "--proxy"@ {
            if i + 1 < args.len() {
                lemma_parse_shift(p, rest, i + 2, ArgsView { proxy: args[i + 1], ..acc });
            }
        } else if a == "--nt"@ {
            if i + 1 < args.len() {
                lemma_parse_shift(p, rest, i + 2, ArgsView { new_title: args[i + 1], ..acc });
            }
        } else {
            lemma_parse_shift(p, rest, i + 1, ArgsView { url: a, ..acc });
        }
    }
}

/// Setting `title` before reading arguments that hold no `--title` sets it
/// in the result and changes nothing else.
proof fn lemma_parse_keeps_title(args: Seq<Seq<char>>, i: int, acc: ArgsView, v: usize)
    requires
        lacks_option(args, i, "--title"@),
    ensures
        parse_args_from(args, i, ArgsView { title: v, ..acc }) == after_read(
            parse_args_from(args, i, acc),
            |b: ArgsView| ArgsView { title: v, ..b },
        ),
    decreases args.len() - i,
{
    if 0 <= i < args.len() {
        let a = args[i];
        if a == "--title"@ {
            if i + 1 < args.len() {
                match text::parse_unsigned(args[i + 1], usize::MAX as nat) {
                    Some(t) => if t <= 2 {
                        lemma_parse_keeps_title(args, i + 2, ArgsView { title: t as usize, ..acc }, v);
                    },
                    None => {},
                }
            }
        } else if a == "--help"@ {
        } else if a == "--no-up"@ {
            lemma_parse_keeps_title(args, i + 1, ArgsView { no_upload: true, ..acc }, v);
        } else if a == "--sleep"@ {
            if i + 1 < args.len() {
                match text::parse_unsigned(args[i + 1], u64::MAX as nat) {
                    Some(t) => {
                        lemma_parse_keeps_title(args, i + 2, ArgsView { sleep: t as u64, ..acc }, v);
                    },
                    None => {},
                }
            }
        } else if a == "--retry"@ {
            if i + 1 < args.len() {
                match text::parse_unsigned(args[i + 1], usize::MAX as nat) {
                    Some(t) => {
                        lemma_parse_keeps_title(args, i + 2, ArgsView { retry: t as usize, ..acc }, v);
                    },
                    None => {},
                }
            }
        } else if a == "--proxy"@ {
            if i + 1 < args.len() {
                lemma_parse_keeps_title(args, i + 2, ArgsView { proxy: args[i + 1], ..acc }, v);
            }
        } else if a == "--nt"@ {
            if i + 1 < args.len() {
                lemma_parse_keeps_title(args, i + 2, ArgsView { new_title: args[i + 1], ..acc }, v);
            }
        } else {
            lemma_parse_keeps_title(args, i + 1, ArgsView { url: a, ..acc }, v);
        }
    }
}

/// Setting `sleep` before reading arguments that hold no `--sleep` sets it
/// in the result and changes nothing else.
proof fn lemma_parse_keeps_sleep(args: Seq<Seq<char>>, i: int, acc: ArgsView, v: u64)
    requires
        lacks_option(args, i, "--sleep"@),
    ensures
        parse_args_from(args, i, ArgsView { sleep: v, ..acc }) == after_read(
            parse_args_from(args, i, acc),
            |b: ArgsView| ArgsView { sleep: v, ..b },
        ),
    decreases args.len() - i,
{
    if 0 <= i < args.len() {
        let a = args[i];
        if a == "--title"@ {
            if i + 1 < args.len() {
                match text::parse_unsigned(args[i + 1], usize::MAX as nat) {
                    Some(t) => if t <= 2 {
                        lemma_parse_keeps_sleep(args, i + 2, ArgsView { title: t as usize, ..acc }, v);
                    },
                    None => {},
                }
            }
        } else if a == "--help"@ {
        } else if a == "--no-up"@ {
            lemma_parse_keeps_sleep(args, i + 1, ArgsView { no_upload: true, ..acc }, v);
        } else if a == "--sleep"@ {
            if i + 1 < args.len() {
                match text::parse_unsigned(args[i + 1], u64::MAX as nat) {
                    Some(t) => {
                        lemma_parse_keeps_sleep(args, i + 2, ArgsView { sleep: t as u64, ..acc }, v);
                    },
                    None => {},
                }
            }
        } else if a == "--retry"@ {
            if i + 1 < args.len() {
                match text::parse_unsigned(args[i + 1], usize::MAX as nat) {
                    Some(t) => {
                        lemma_parse_keeps_sleep(args, i + 2, ArgsView { retry: t as usize, ..acc }, v);
                    },
                    None => {},
                }
            }
        } else if a == "--proxy"@ {
            if i + 1 < args.len() {
                lemma_parse_keeps_sleep(args, i + 2, ArgsView { proxy: args[i + 1], ..acc }, v);
            }
        } else if a == "--nt"@ {
            if i + 1 < args.len() {
                lemma_parse_keeps_sleep(args, i + 2, ArgsView { new_title: args[i + 1], ..acc }, v);
            }
        } else {
            lemma_parse_keeps_sleep(args, i + 1, ArgsView { url: a, ..acc }, v);
        }
    }
}

/// Setting `retry` before reading arguments that hold no `--retry` sets it
/// in the result and changes nothing else.
proof fn lemma_parse_keeps_retry(args: Seq<Seq<char>>, i: int, acc: ArgsView, v: usize)
    requires
        lacks_option(args, i, "--retry"@),
    ensures
        parse_args_from(args, i, ArgsView { retry: v, ..acc }) == after_read(
            parse_args_from(args, i, acc),
            |b: ArgsView| ArgsView { retry: v, ..b },
        ),
    decreases args.len() - i,
{
    if 0 <= i < args.len() {
        let a = args[i];
        if a == "--title"@ {
            if i + 1 < args.len() {
                match text::parse_unsigned(args[i + 1], usize::MAX as nat) {
                    Some(t) => if t <= 2 {
                        lemma_parse_keeps_retry(args, i + 2, ArgsView { title: t as usize, ..acc }, v);
                    },
                    None => {},
                }
            }
        } else if a == "--help"@ {
        } else if a == "--no-up"@ {
            lemma_parse_keeps_retry(args, i + 1, ArgsView { no_upload: true, ..acc }, v);
        } else if a == "--sleep"@ {
            if i + 1 < args.len() {
                match text::parse_unsigned(args[i + 1], u64::MAX as nat) {
                    Some(t) => {
                        lemma_parse_keeps_retry(args, i + 2, ArgsView { sleep: t as u64, ..acc }, v);
                    },
                    None => {},
                }
            }
        } else if a == "--retry"@ {
            if i + 1 < args.len() {
                match text::parse_unsigned(args[i + 1], usize::MAX as nat) {
                    Some(t) => {
                        lemma_parse_keeps_retry(args, i + 2, ArgsView { retry: t as usize, ..acc }, v);
                    },
                    None => {},
                }
            }
        } else if a == "--proxy"@ {
            if i + 1 < args.len() {
                lemma_parse_keeps_retry(args, i + 2, ArgsView { proxy: args[i + 1], ..acc }, v);
            }
        } else if a == "--nt"@ {
            if i + 1 < args.len() {
                lemma_parse_keeps_retry(args, i + 2, ArgsView { new_title: args[i + 1], ..acc }, v);
            }
        } else {
            lemma_parse_keeps_retry(args, i + 1, ArgsView { url: a, ..acc }, v);
        }
    }
}

/// Setting `proxy` before reading arguments that hold no `--proxy` sets it
/// in the result and changes nothing else.
proof fn lemma_parse_keeps_proxy(args: Seq<Seq<char>>, i: int, acc: ArgsView, v: Seq<char>)
    requires
        lacks_option(args, i, "--proxy"@),
    ensures
        parse_args_from(args, i, ArgsView { proxy: v, ..acc }) == after_read(
            parse_args_from(args, i, acc),
            |b: ArgsView| ArgsView { proxy: v, ..b },
        ),
    decreases args.len() - i,
{
    if 0 <= i < args.len() {
        let a = args[i];
        if a == "--title"@ {
            if i + 1 < args.len() {
                match text::parse_unsigned(args[i + 1], usize::MAX as nat) {
                    Some(t) => if t <= 2 {
                        lemma_parse_keeps_proxy(args, i + 2, ArgsView { title: t as usize, ..acc }, v);
                    },
                    None => {},
                }
            }
        } else if a == "--help"@ {
        } else if a == "--no-up"@ {
            lemma_parse_keeps_proxy(args, i + 1, ArgsView { no_upload: true, ..acc }, v);
        } else if a == "--sleep"@ {
            if i + 1 < args.len() {
                match text::parse_unsigned(args[i + 1], u64::MAX as nat) {
                    Some(t) => {
                        lemma_parse_keeps_proxy(args, i + 2, ArgsView { sleep: t as u64, ..acc }, v);
                    },
                    None => {},
                }
            }
        } else if a == "--retry"@ {
            if i + 1 < args.len() {
                match text::parse_unsigned(args[i + 1], usize::MAX as nat) {
                    Some(t) => {
                        lemma_parse_keeps_proxy(args, i + 2, ArgsView { retry: t as usize, ..acc }, v);
                    },
                    None => {},
                }
            }
        } else if a == "--proxy"@ {
            if i + 1 < args.len() {
                lemma_parse_keeps_proxy(args, i + 2, ArgsView { proxy: args[i + 1], ..acc }, v);
            }
        } else if a == "--nt"@ {
            if i + 1 < args.len() {
                lemma_parse_keeps_proxy(args, i + 2, ArgsView { new_title: args[i + 1], ..acc }, v);
            }
        } else {
            lemma_parse_keeps_proxy(args, i + 1, ArgsView { url: a, ..acc }, v);
        }
    }
}

/// Setting `new_title` before reading arguments that hold no `--nt` sets it
/// in the result and changes nothing else.
proof fn lemma_parse_keeps_new_title(args: Seq<Seq<char>>, i: int, acc: ArgsView, v: Seq<char>)
    requires
        lacks_option(args, i, "--nt"@),
    ensures
        parse_args_from(args, i, ArgsView { new_title: v, ..acc }) == after_read(
            parse_args_from(args, i, acc),
            |b: ArgsView| ArgsView { new_title: v, ..b },
        ),
    decreases args.len() - i,
{
    if 0 <= i < args.len() {
        let a = args[i];
        if a == "--title"@ {
            if i + 1 < args.len() {
                match text::parse_unsigned(args[i + 1], usize::MAX as nat) {
                    Some(t) => if t <= 2 {
                        lemma_parse_keeps_new_title(args, i + 2, ArgsView { title: t as usize, ..acc }, v);
                    },
                    None => {},
                }
            }
        } else if a == "--help"@ {
        } else if a == "--no-up"@ {
            lemma_parse_keeps_new_title(args, i + 1, ArgsView { no_upload: true, ..acc }, v);
        } else if a == "--sleep"@ {
            if i + 1 < args.len() {
                match text::parse_unsigned(args[i + 1], u64::MAX as nat) {
                    Some(t) => {
                        lemma_parse_keeps_new_title(args, i + 2, ArgsView { sleep: t as u64, ..acc }, v);
                    },
                    None => {},
                }
            }
        } else if a == "--retry"@ {
            if i + 1 < args.len() {
                match text::parse_unsigned(args[i + 1], usize::MAX as nat) {
                    Some(t) => {
                        lemma_parse_keeps_new_title(args, i + 2, ArgsView { retry: t as usize, ..acc }, v);
                    },
                    None => {},
                }
            }
        } else if a == "--proxy"@ {
            if i + 1 < args.len() {
                lemma_parse_keeps_new_title(args, i + 2, ArgsView { proxy: args[i + 1], ..acc }, v);
            }
        } else if a == "--nt"@ {
            if i + 1 < args.len() {
                lemma_parse_keeps_new_title(args, i + 2, ArgsView { new_title: args[i + 1], ..acc }, v);
            }
        } else {
            lemma_parse_keeps_new_title(args, i + 1, ArgsView { url: a, ..acc }, v);
        }
    }
}

/// Setting `no_upload` before reading any arguments sets it in the result
/// and changes nothing else.
proof fn lemma_parse_keeps_no_upload(args: Seq<Seq<char>>, i: int, acc: ArgsView)
    ensures
        parse_args_from(args, i, ArgsView { no_upload: true, ..acc }) == after_read(
            parse_args_from(args, i, acc),
            |b: ArgsView| ArgsView { no_upload: true, ..b },
        ),
    decreases args.len() - i,
{
    if 0 <= i < args.len() {
        let a = args[i];
        if a == "--title"@ {
            if i + 1 < args.len() {
                match text::parse_unsigned(args[i + 1], usize::MAX as nat) {
                    Some(t) => if t <= 2 {
                        lemma_parse_keeps_no_upload(args, i + 2, ArgsView { title: t as usize, ..acc });
                    },
                    None => {},
                }
            }
        } else if a == "--help"@ {
        } else if a == "--no-up"@ {
            lemma_parse_keeps_no_upload(args, i + 1, ArgsView { no_upload: true, ..acc });
        } else if a == "--sleep"@ {
            if i + 1 < args.len() {
                match text::parse_unsigned(args[i + 1], u64::MAX as nat) {
                    Some(t) => {
                        lemma_parse_keeps_no_upload(args, i + 2, ArgsView { sleep: t as u64, ..acc });
                    },
                    None => {},
                }
            }
        } else if a == "--retry"@ {
            if i + 1 < args.len() {
                match text::parse_unsigned(args[i + 1], usize::MAX as nat) {
                    Some(t) => {
                        lemma_parse_keeps_no_upload(args, i + 2, ArgsView { retry: t as usize, ..acc });
                    },
                    None => {},
                }
            }
        } else if a == "--proxy"@ {
            if i + 1 < args.len() {
                lemma_parse_keeps_no_upload(args, i + 2, ArgsView { proxy: args[i + 1], ..acc });
            }
        } else if a == "--nt"@ {
            if i + 1 < args.len() {
                lemma_parse_keeps_no_upload(args, i + 2, ArgsView { new_title: args[i + 1], ..acc });
            }
        } else {
            lemma_parse_keeps_no_upload(args, i + 1, ArgsView { url: a, ..acc });
        }
    }
}

/// The option names differ from one another.
proof fn lemma_option_names()
    ensures
        "--title"@ != "--help"@,
        "--title"@ != "--no-up"@,
        "--title"@ != "--sleep"@,
        "--title"@ != "--retry"@,
        "--title"@ != "--proxy"@,
        "--title"@ != "--nt"@,
        "--help"@ != "--no-up"@,
        "--help"@ != "--sleep"@,
        "--help"@ != "--retry"@,
        "--help"@ != "--proxy"@,
        "--help"@ != "--nt"@,
        "--no-up"@ != "--sleep"@,
        "--no-up"@ != "--retry"@,
        "--no-up"@ != "--proxy"@,
        "--no-up"@ != "--nt"@,
        "--sleep"@ != "--retry"@,
        "--sleep"@ != "--proxy"@,
        "--sleep"@ != "--nt"@,
        "--retry"@ != "--proxy"@,
        "--retry"@ != "--nt"@,
        "--proxy"@ != "--nt"@,
{
    reveal_strlit("--title");
    reveal_strlit("--help");
    reveal_strlit("--no-up");
    reveal_strlit("--sleep");
    reveal_strlit("--retry");
    reveal_strlit("--proxy");
    reveal_strlit("--nt");
    assert("--title"@[2] != "--help"@[2]);
    assert("--title"@[2] != "--no-up"@[2]);
    assert("--title"@[2] != "--sleep"@[2]);
    assert("--title"@[2] != "--retry"@[2]);
    assert("--title"@[2] != "--proxy"@[2]);
    assert("--title"@.len() != "--nt"@.len());
    assert("--help"@.len() != "--no-up"@.len());
    assert("--help"@.len() != "--sleep"@.len());
    assert("--help"@.len() != "--retry"@.len());
    assert("--help"@.len() != "--proxy"@.len());
    assert("--help"@.len() != "--nt"@.len());
    assert("--no-up"@[2] != "--sleep"@[2]);
    assert("--no-up"@[2] != "--retry"@[2]);
    assert("--no-up"@[2] != "--proxy"@[2]);
    assert("--no-up"@.len() != "--nt"@.len());
    assert("--sleep"@[2] != "--retry"@[2]);
    assert("--sleep"@[2] != "--proxy"@[2]);
    assert("--sleep"@.len() != "--nt"@.len());
    assert("--retry"@[2] != "--proxy"@[2]);
    assert("--retry"@.len() != "--nt"@.len());
    assert("--proxy"@.len() != "--nt"@.len());
}

/// Two reads of the arguments, `with` an option in front and `without` it:
/// the first succeeds exactly when the second does, with the same error, and
/// then gives the second's options changed by `f`.
pub open spec fn reads_as(
    with: Result<ArgsView, ArgsError>,
    without: Result<ArgsView, ArgsError>,
    f: spec_fn(ArgsView) -> ArgsView,
) -> bool {
    match (with, without) {
        (Ok(a), Ok(b)) => a == f(b),
        (Err(x), Err(y)) => x == y,
        _ => false,
    }
}

/// `--title n` in front of arguments that hold no other `--title`, with `n`
/// written in decimal and at most 2, selects title part `n` and changes
/// nothing else.
pub proof fn lemma_title_option(n: nat, rest: Seq<Seq<char>>)
    requires
        n <= 2,
        lacks_option(rest, 0, "--title"@),
    ensures
        reads_as(
            parse_args(seq!["--title"@, text::decimal(n)] + rest),
            parse_args(rest),
            |b: ArgsView| ArgsView { title: n as usize, ..b },
        ),
{
    lemma_option_names();
    let p = seq!["--title"@, text::decimal(n)];
    let full = p + rest;
    text::lemma_parse_decimal(n, usize::MAX as nat);
    assert(full[0] == "--title"@ && full[1] == text::decimal(n));
    lemma_parse_shift(p, rest, 0, ArgsView { title: n as usize, ..default_args() });
    lemma_parse_keeps_title(rest, 0, default_args(), n as usize);
}

/// `--title n` with `n` above 2 is refused, whatever follows.
pub proof fn lemma_title_option_too_large(n: nat, rest: Seq<Seq<char>>)
    requires
        2 < n <= usize::MAX,
    ensures
        parse_args(seq!["--title"@, text::decimal(n)] + rest) == Err::<ArgsView, ArgsError>(
            ArgsError::TitleInvalid,
        ),
{
    lemma_option_names();
    let full = seq!["--title"@, text::decimal(n)] + rest;
    text::lemma_parse_decimal(n, usize::MAX as nat);
    assert(full[0] == "--title"@ && full[1] == text::decimal(n));
}

/// `--sleep n` in front of arguments that hold no other `--sleep`, with `n`
/// written in decimal and fitting 64 bits, waits `n` seconds and changes
/// nothing else.
pub proof fn lemma_sleep_option(n: nat, rest: Seq<Seq<char>>)
    requires
        n <= u64::MAX,
        lacks_option(rest, 0, "--sleep"@),
    ensures
        reads_as(
            parse_args(seq!["--sleep"@, text::decimal(n)] + rest),
            parse_args(rest),
            |b: ArgsView| ArgsView { sleep: n as u64, ..b },
        ),
{
    lemma_option_names();
    let p = seq!["--sleep"@, text::decimal(n)];
    let full = p + rest;
    text::lemma_parse_decimal(n, u64::MAX as nat);
    assert(full[0] == "--sleep"@ && full[1] == text::decimal(n));
    lemma_parse_shift(p, rest, 0, ArgsView { sleep: n as u64, ..default_args() });
    lemma_parse_keeps_sleep(rest, 0, default_args(), n as u64);
}

/// `--retry n` in front of arguments that hold no other `--retry`, with `n`
/// written in decimal and fitting `usize`, tries `n` times and changes
/// nothing else.
pub proof fn lemma_retry_option(n: nat, rest: Seq<Seq<char>>)
    requires
        n <= usize::MAX,
        lacks_option(rest, 0, "--retry"@),
    ensures
        reads_as(
            parse_args(seq!["--retry"@, text::decimal(n)] + rest),
            parse_args(rest),
            |b: ArgsView| ArgsView { retry: n as usize, ..b },
        ),
{
    lemma_option_names();
    let p = seq!["--retry"@, text::decimal(n)];
    let full = p + rest;
    text::lemma_parse_decimal(n, usize::MAX as nat);
    assert(full[0] == "--retry"@ && full[1] == text::decimal(n));
    lemma_parse_shift(p, rest, 0, ArgsView { retry: n as usize, ..default_args() });
    lemma_parse_keeps_retry(rest, 0, default_args(), n as usize);
}

/// `--proxy h` in front of arguments that hold no other `--proxy` sets the
/// proxy to `h`, whatever `h` is, and changes nothing else.
pub proof fn lemma_proxy_option(h: Seq<char>, rest: Seq<Seq<char>>)
    requires
        lacks_option(rest, 0, "--proxy"@),
    ensures
        reads_as(
            parse_args(seq!["--proxy"@, h] + rest),
            parse_args(rest),
            |b: ArgsView| ArgsView { proxy: h, ..b },
        ),
{
    lemma_option_names();
    let p = seq!["--proxy"@, h];
    let full = p + rest;
    assert(full[0] == "--proxy"@ && full[1] == h);
    lemma_parse_shift(p, rest, 0, ArgsView { proxy: h, ..default_args() });
    lemma_parse_keeps_proxy(rest, 0, default_args(), h);
}

/// `--nt j` in front of arguments that hold no other `--nt` sets the title
/// corrections to `j`, whatever `j` is, and changes nothing else.
pub proof fn lemma_new_title_option(j: Seq<char>, rest: Seq<Seq<char>>)
    requires
        lacks_option(rest, 0, "--nt"@),
    ensures
        reads_as(
            parse_args(seq!["--nt"@, j] + rest),
            parse_args(rest),
            |b: ArgsView| ArgsView { new_title: j, ..b },
        ),
{
    lemma_option_names();
    let p = seq!["--nt"@, j];
    let full = p + rest;
    assert(full[0] == "--nt"@ && full[1] == j);
    lemma_parse_shift(p, rest, 0, ArgsView { new_title: j, ..default_args() });
    lemma_parse_keeps_new_title(rest, 0, default_args(), j);
}

/// `--no-up` in front of any arguments turns uploading off and changes
/// nothing else.
pub proof fn lemma_no_up_option(rest: Seq<Seq<char>>)
    ensures
        reads_as(
            parse_args(seq!["--no-up"@] + rest),
            parse_args(rest),
            |b: ArgsView| ArgsView { no_upload: true, ..b },
        ),
{
    lemma_option_names();
    let p = seq!["--no-up"@];
    let full = p + rest;
    assert(full[0] == "--no-up"@);
    lemma_parse_shift(p, rest, 0, ArgsView { no_upload: true, ..default_args() });
    lemma_parse_keeps_no_upload(rest, 0, default_args());
}

impl ArgsError {
    /// The message a refused command line is reported with.
    pub fn message(&self) -> (m: String)
        ensures
            m@ == match self {
                ArgsError::TitleMissing => "--title number"@,
                ArgsError::TitleInvalid => "--title 0,1,2"@,
                ArgsError::SleepMissing => "--sleep number"@,
                ArgsError::SleepInvalid => "--sleep number"@,
                ArgsError::RetryMissing => "--retry number"@,
                ArgsError::RetryInvalid => "--retry number"@,
                ArgsError::ProxyMissing => "--proxy host:port"@,
                ArgsError::NewTitleMissing => "--nt json"@,
            },
    {
        match self {
            ArgsError::TitleMissing => String::from_str("--title number"),
            ArgsError::TitleInvalid => String::from_str("--title 0,1,2"),
            ArgsError::SleepMissing => String::from_str("--sleep number"),
            ArgsError::SleepInvalid => String::from_str("--sleep number"),
            ArgsError::RetryMissing => String::from_str("--retry number"),
            ArgsError::RetryInvalid => String::from_str("--retry number"),
            ArgsError::ProxyMissing => String::from_str("--proxy host:port"),
            ArgsError::NewTitleMissing => String::from_str("--nt json"),
        }
    }
}

impl Args {
    /// The options before any argument is read: title part 1, five seconds
    /// of waiting, three tries, everything uploaded, images kept.
    pub fn default() -> (a: Args)
        ensures
            a@ == default_args(),
    {
        Args {
            title: 1,
            help: false,
            url: String::new(),
            no_upload: false,
            sleep: 5,
            retry: 3,
            proxy: String::new(),
            new_title: String::new(),
            no_img: false,
            no_upload_cache: false,
        }
    }

    /// The part of a book title that the `title` option selects.
    pub fn title_part(&self, title: &str) -> (r: String)
        ensures
            r@ == select_title_spec(self.title, title@),
    {
        let v = chars_of(title);
        let ghost t = title@;
        let selected: Vec<char> = if self.title == 0 {
            v
        } else {
            proof {
                t.index_of_first_ensures('(');
                t.index_of_first_ensures(')');
            }
            match (find_char(&v, '('), find_char(&v, ')')) {
                (Some(b), Some(e)) => {
                    if e == v.len() - 1 && b != 0 {
                        assert(b != e);
                        if self.title == 1 {
                            slice_chars(&v, 0, b)
                        } else if self.title == 2 {
                            slice_chars(&v, b + 1, e)
                        } else {
                            v
                        }
                    } else {
                        v
                    }
                },
                _ => v,
            }
        };
        string_of(&selected)
    }

    /// Reads the options from the arguments that follow the program name.
    /// `--help` stops the reading; an argument that is no option is the url.
    pub fn parse(args: &Vec<String>) -> (r: Result<Args, ArgsError>)
        ensures
            r matches Ok(a) ==> parse_args(args.deep_view()) == Ok::<ArgsView, ArgsError>(a@),
            r matches Err(e) ==> parse_args(args.deep_view()) == Err::<ArgsView, ArgsError>(e),
            r matches Ok(a) ==> a.title <= 2,
    {
        let ghost av = args.deep_view();
        proof {
            lemma_parse_title_bound(av, 0, default_args());
        }
        let mut res = Args::default();
        let mut i: usize = 0;
        while i < args.len()
            invariant
                av == args.deep_view(),
                i <= args.len(),
                parse_args_from(av, i as int, res@) == parse_args(av),
                parse_args(av) matches Ok(x) ==> x.title <= 2,
            decreases args.len() - i,
        {
            let a = args[i].as_str();
            assert(av[i as int] == a@);
            if str_eq(a, "--title") {
                if i + 1 >= args.len() {
                    return Err(ArgsError::TitleMissing);
                }
                assert(av[i + 1] == args[i + 1]@);
                match parse_usize(args[i + 1].as_str()) {
                    Some(t) => {
                        if t > 2 {
                            return Err(ArgsError::TitleInvalid);
                        }
                        res.title = t;
                    },
                    None => {
                        return Err(ArgsError::TitleInvalid);
                    },
                }
                i = i + 2;
            } else if str_eq(a, "--help") {
                res.help = true;
                return Ok(res);
            } else if str_eq(a, "--no-up") {
                res.no_upload = true;
                i = i + 1;
            } else if str_eq(a, "--sleep") {
                if i + 1 >= args.len() {
                    return Err(ArgsError::SleepMissing);
                }
                assert(av[i + 1] == args[i + 1]@);
                match parse_u64(args[i + 1].as_str()) {
                    Some(t) => {
                        res.sleep = t;
                    },
                    None => {
                        return Err(ArgsError::SleepInvalid);
                    },
                }
                i = i + 2;
            } else if str_eq(a, "--retry") {
                if i + 1 >= args.len() {
                    return Err(ArgsError::RetryMissing);
                }
                assert(av[i + 1] == args[i + 1]@);
                match parse_usize(args[i + 1].as_str()) {
                    Some(t) => {
                        res.retry = t;
                    },
                    None => {
                        return Err(ArgsError::RetryInvalid);
                    },
                }
                i = i + 2;
            } else if str_eq(a, "--proxy") {
                if i + 1 >= args.len() {
                    return Err(ArgsError::ProxyMissing);
                }
                assert(av[i + 1] == args[i + 1]@);
                res.proxy = args[i + 1].clone();
                i = i + 2;
            } else if str_eq(a, "--nt") {
                if i + 1 >= args.len() {
                    return Err(ArgsError::NewTitleMissing);
                }
                assert(av[i + 1] == args[i + 1]@);
                res.new_title = args[i + 1].clone();
                i = i + 2;
            } else {
                res.url = args[i].clone();
                i = i + 1;
            }
        }
        Ok(res)
    }
}

} // verus!
