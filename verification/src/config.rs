//! Server configuration: the snapshot directory and file name, resolved
//! from the command-line options or from the persisted key-value text
//! (`dir <path>` / `dbfilename <name>`, one setting per line). Reading and
//! writing the text file is the caller's business; this module decides and
//! converts.
use crate::args::Args;
use crate::text::copy_range;
use crate::text::spec_text;
use crate::text::bytes_to_string_lossy;
use vstd::prelude::*;
use vstd::string::StringSliceAdditionalSpecFns;
use vstd::string::StringExecFns;

verus! {

/// The resolved configuration.
#[derive(Debug)]
pub struct Config {
    pub dir: Option<String>,
    pub dbfilename: Option<String>,
}

impl Default for Config {
    fn default() -> (r: Config)
        ensures
            r.dir is None && r.dbfilename is None,
    {
        Config { dir: None, dbfilename: None }
    }
}

/// The configuration text's whitespace within a line: space, tab, and the
/// carriage return a `\r\n` line ending leaves behind.
pub open spec fn spec_is_ws(b: u8) -> bool {
    b == 32 || b == 9 || b == 13
}

/// First index at or after `i` holding byte `b`, or the length.
pub open spec fn spec_find_from(s: Seq<u8>, i: int, b: u8) -> int
    decreases s.len() - i,
{
    if i < 0 || i >= s.len() {
        s.len() as int
    } else if s[i] == b {
        i
    } else {
        spec_find_from(s, i + 1, b)
    }
}

/// First index at or after `i` that is not whitespace, or the length.
pub open spec fn spec_skip_ws(s: Seq<u8>, i: int) -> int
    decreases s.len() - i,
{
    if i < 0 || i >= s.len() {
        s.len() as int
    } else if spec_is_ws(s[i]) {
        spec_skip_ws(s, i + 1)
    } else {
        i
    }
}

/// First index at or after `i` that is whitespace, or the length.
pub open spec fn spec_token_end(s: Seq<u8>, i: int) -> int
    decreases s.len() - i,
{
    if i < 0 || i >= s.len() {
        s.len() as int
    } else if spec_is_ws(s[i]) {
        i
    } else {
        spec_token_end(s, i + 1)
    }
}

/// The first whitespace-separated token of a line and the index after it.
pub open spec fn spec_first_token(line: Seq<u8>) -> Option<(Seq<u8>, int)> {
    let a = spec_skip_ws(line, 0);
    if a >= line.len() {
        None
    } else {
        Some((line.subrange(a, spec_token_end(line, a)), spec_token_end(line, a)))
    }
}

/// The second whitespace-separated token of a line, if any.
pub open spec fn spec_second_token(line: Seq<u8>) -> Option<Seq<u8>> {
    match spec_first_token(line) {
        None => None,
        Some((t, b)) => {
            let a2 = spec_skip_ws(line, b);
            if a2 >= line.len() {
                None
            } else {
                Some(line.subrange(a2, spec_token_end(line, a2)))
            }
        },
    }
}

/// The bytes of `dir`.
pub open spec fn spec_kw_dir() -> Seq<u8> {
    seq![100u8, 105u8, 114u8]
}

/// The bytes of `dbfilename`.
pub open spec fn spec_kw_dbfilename() -> Seq<u8> {
    seq![100u8, 98u8, 102u8, 105u8, 108u8, 101u8, 110u8, 97u8, 109u8, 101u8]
}

/// One line's effect on the settings: a line whose first token is `dir` or
/// `dbfilename` sets that field to its second token — to nothing when the
/// line has no second token — and any other line changes nothing. A later
/// line overrides an earlier one.
pub open spec fn spec_apply_line(
    line: Seq<u8>,
    dir: Option<Seq<u8>>,
    dbf: Option<Seq<u8>>,
) -> (Option<Seq<u8>>, Option<Seq<u8>>) {
    match spec_first_token(line) {
        None => (dir, dbf),
        Some((t, _)) => if t == spec_kw_dir() {
            (spec_second_token(line), dbf)
        } else if t == spec_kw_dbfilename() {
            (dir, spec_second_token(line))
        } else {
            (dir, dbf)
        },
    }
}

/// Folding the configuration text from position `i`, one line at a time.
pub open spec fn spec_config_fold(
    s: Seq<u8>,
    i: int,
    dir: Option<Seq<u8>>,
    dbf: Option<Seq<u8>>,
) -> (Option<Seq<u8>>, Option<Seq<u8>>)
    decreases s.len() - i,
{
    if i < 0 || i >= s.len() {
        (dir, dbf)
    } else {
        let k = spec_find_from(s, i, 10);
        let r = spec_apply_line(s.subrange(i, k), dir, dbf);
        if i <= k < s.len() {
            spec_config_fold(s, k + 1, r.0, r.1)
        } else {
            r
        }
    }
}

/// What the configuration text denotes: the last `dir` and `dbfilename`
/// settings, as their raw bytes.
pub open spec fn spec_parse_config(s: Seq<u8>) -> (Option<Seq<u8>>, Option<Seq<u8>>) {
    spec_config_fold(s, 0, None, None)
}

/// The byte sequences of an optional byte vector.
pub open spec fn opt_bytes(o: Option<Vec<u8>>) -> Option<Seq<u8>> {
    match o {
        Option::Some(v) => Some(v@),
        Option::None => None,
    }
}

/// Whether an optional string is the permissive decoding of an optional
/// byte token.
pub open spec fn opt_text_matches(o: Option<String>, g: Option<Seq<u8>>) -> bool {
    match (o, g) {
        (Option::None, Option::None) => true,
        (Option::Some(x), Option::Some(b)) => x@ == spec_text(b),
        _ => false,
    }
}

/// The persisted form of a configuration: a `dir` line when a directory is
/// set, then a `dbfilename` line when a file name is set.
pub open spec fn spec_config_text(dir: Option<Seq<char>>, dbf: Option<Seq<char>>) -> Seq<char> {
    (match dir {
        Some(d) => "dir "@ + d + "\n"@,
        None => Seq::<char>::empty(),
    }) + (match dbf {
        Some(f) => "dbfilename "@ + f + "\n"@,
        None => Seq::<char>::empty(),
    })
}

/// First index at or after `start` holding byte `b`, or the length.
fn find_from(bytes: &Vec<u8>, start: usize, b: u8) -> (r: usize)
    requires
        start <= bytes@.len(),
    ensures
        r as int == spec_find_from(bytes@, start as int, b),
        start <= r <= bytes@.len(),
{
    let mut i = start;
    proof {
        assert(bytes.len() == bytes@.len());
    }
    loop
        invariant
            start <= i <= bytes@.len(),
            bytes@.len() <= usize::MAX,
            spec_find_from(bytes@, start as int, b) == spec_find_from(bytes@, i as int, b),
        ensures
            start <= i <= bytes@.len(),
            spec_find_from(bytes@, start as int, b) == spec_find_from(bytes@, i as int, b),
            i == bytes@.len() || bytes@[i as int] == b,
        decreases bytes@.len() - i,
    {
        if i >= bytes.len() {
            break ;
        }
        if bytes[i] == b {
            break ;
        }
        i = i + 1;
    }
    i
}

/// First index at or after `start` that is not whitespace, or the length.
fn skip_ws_from(bytes: &Vec<u8>, start: usize) -> (r: usize)
    requires
        start <= bytes@.len(),
    ensures
        r as int == spec_skip_ws(bytes@, start as int),
        start <= r <= bytes@.len(),
{
    let mut i = start;
    proof {
        assert(bytes.len() == bytes@.len());
    }
    loop
        invariant
            start <= i <= bytes@.len(),
            bytes@.len() <= usize::MAX,
            spec_skip_ws(bytes@, start as int) == spec_skip_ws(bytes@, i as int),
        ensures
            start <= i <= bytes@.len(),
            spec_skip_ws(bytes@, start as int) == spec_skip_ws(bytes@, i as int),
            i == bytes@.len() || !spec_is_ws(bytes@[i as int]),
        decreases bytes@.len() - i,
    {
        if i >= bytes.len() {
            break ;
        }
        let c = bytes[i];
        if !(c == 32 || c == 9 || c == 13) {
            break ;
        }
        i = i + 1;
    }
    i
}

/// First index at or after `start` that is whitespace, or the length.
fn token_end_from(bytes: &Vec<u8>, start: usize) -> (r: usize)
    requires
        start <= bytes@.len(),
    ensures
        r as int == spec_token_end(bytes@, start as int),
        start <= r <= bytes@.len(),
{
    let mut i = start;
    proof {
        assert(bytes.len() == bytes@.len());
    }
    loop
        invariant
            start <= i <= bytes@.len(),
            bytes@.len() <= usize::MAX,
            spec_token_end(bytes@, start as int) == spec_token_end(bytes@, i as int),
        ensures
            start <= i <= bytes@.len(),
            spec_token_end(bytes@, start as int) == spec_token_end(bytes@, i as int),
            i == bytes@.len() || spec_is_ws(bytes@[i as int]),
        decreases bytes@.len() - i,
    {
        if i >= bytes.len() {
            break ;
        }
        let c = bytes[i];
        if c == 32 || c == 9 || c == 13 {
            break ;
        }
        i = i + 1;
    }
    i
}

/// True when the bytes are exactly `dir`.
fn kw_is_dir(t: &Vec<u8>) -> (r: bool)
    ensures
        r == (t@ == spec_kw_dir()),
{
    if t.len() != 3 {
        return false;
    }
    let r = t[0] == 100 && t[1] == 105 && t[2] == 114;
    proof {
        if r {
            assert(t@ =~= spec_kw_dir());
        } else {
            if t@ == spec_kw_dir() {
                assert(t@[0] == 100 && t@[1] == 105 && t@[2] == 114);
            }
        }
    }
    r
}

/// True when the bytes are exactly `dbfilename`.
fn kw_is_dbfilename(t: &Vec<u8>) -> (r: bool)
    ensures
        r == (t@ == spec_kw_dbfilename()),
{
    if t.len() != 10 {
        return false;
    }
    let r = t[0] == 100 && t[1] == 98 && t[2] == 102 && t[3] == 105 && t[4] == 108 && t[5] == 101
        && t[6] == 110 && t[7] == 97 && t[8] == 109 && t[9] == 101;
    proof {
        if r {
            assert(t@ =~= spec_kw_dbfilename());
        } else {
            if t@ == spec_kw_dbfilename() {
                assert(t@[0] == 100 && t@[1] == 98 && t@[2] == 102 && t@[3] == 105 && t@[4] == 108
                    && t@[5] == 101 && t@[6] == 110 && t@[7] == 97 && t@[8] == 109 && t@[9] == 101);
            }
        }
    }
    r
}

/// The second token of `line`, as bytes.
fn second_token(line: &Vec<u8>, after_first: usize) -> (r: Option<Vec<u8>>)
    requires
        after_first <= line@.len(),
        after_first as int == spec_token_end(line@, spec_skip_ws(line@, 0)),
        spec_first_token(line@) is Some,
    ensures
        match (r, spec_second_token(line@)) {
            (Option::Some(v), Option::Some(b)) => v@ == b,
            (Option::None, Option::None) => true,
            _ => false,
        },
{
    let a2 = skip_ws_from(line, after_first);
    if a2 >= line.len() {
        None
    } else {
        let b2 = token_end_from(line, a2);
        Some(copy_range(line, a2, b2 - a2))
    }
}

/// One line's effect on the settings.
fn apply_line(line: &Vec<u8>, dir: Option<Vec<u8>>, dbf: Option<Vec<u8>>) -> (r: (
    Option<Vec<u8>>,
    Option<Vec<u8>>,
))
    ensures
        ({
            let g = spec_apply_line(line@, opt_bytes(dir), opt_bytes(dbf));
            opt_bytes(r.0) == g.0 && opt_bytes(r.1) == g.1
        }),
{
    let a = skip_ws_from(line, 0);
    if a >= line.len() {
        return (dir, dbf);
    }
    let b = token_end_from(line, a);
    let t = copy_range(line, a, b - a);
    if kw_is_dir(&t) {
        let second = second_token(line, b);
        proof {
            assert(opt_bytes(second) == spec_second_token(line@));
        }
        (second, dbf)
    } else if kw_is_dbfilename(&t) {
        let second = second_token(line, b);
        proof {
            assert(opt_bytes(second) == spec_second_token(line@));
        }
        (dir, second)
    } else {
        (dir, dbf)
    }
}

impl Config {
    /// Resolves the configuration. With neither option on the command
    /// line, the persisted text decides; with either present, the options
    /// decide and the second result carries the text to persist, replacing
    /// whatever was saved.
    pub fn new(args: Args, saved_text: &str) -> (r: (Config, Option<String>))
        ensures
            ({
                let parsed = spec_parse_config(saved_text.spec_bytes());
                if args.dir is None && args.dbfilename is None {
                    &&& opt_text_matches(r.0.dir, parsed.0)
                    &&& opt_text_matches(r.0.dbfilename, parsed.1)
                    &&& r.1 is None
                } else {
                    &&& r.0.dir == args.dir
                    &&& r.0.dbfilename == args.dbfilename
                    &&& r.1 is Some
                    &&& r.1.unwrap()@ == spec_config_text(
                        match args.dir {
                            Some(d) => Some(d@),
                            None => None,
                        },
                        match args.dbfilename {
                            Some(f) => Some(f@),
                            None => None,
                        },
                    )
                }
            }),
    {
        if args.dir.is_none() && args.dbfilename.is_none() {
            (Self::from_text(saved_text), None)
        } else {
            let config = Config { dir: args.dir, dbfilename: args.dbfilename };
            let text = config.to_text();
            (config, Some(text))
        }
    }

    /// Parses the persisted configuration text: the last `dir` and
    /// `dbfilename` lines win, and their values are decoded permissively.
    pub fn from_text(text: &str) -> (r: Config)
        ensures
            ({
                let parsed = spec_parse_config(text.spec_bytes());
                opt_text_matches(r.dir, parsed.0) && opt_text_matches(r.dbfilename, parsed.1)
            }),
    {
        let bytes: Vec<u8> = text.as_bytes_vec();
        let ghost s = text.spec_bytes();
        let mut dir: Option<Vec<u8>> = None;
        let mut dbf: Option<Vec<u8>> = None;
        let mut i: usize = 0;
        while i < bytes.len()
            invariant
                s == bytes@,
                i <= s.len(),
                spec_parse_config(s) == spec_config_fold(
                    s,
                    i as int,
                    opt_bytes(dir),
                    opt_bytes(dbf),
                ),
            decreases s.len() - i,
        {
            let ghost i0 = i as int;
            let ghost gdir = opt_bytes(dir);
            let ghost gdbf = opt_bytes(dbf);
            let k = find_from(&bytes, i, 10);
            let line = copy_range(&bytes, i, k - i);
            proof {
                assert(line@ == s.subrange(i0, k as int));
            }
            let folded = apply_line(&line, dir, dbf);
            dir = folded.0;
            dbf = folded.1;
            proof {
                assert(spec_config_fold(s, i0, gdir, gdbf) == if i0 <= k < s.len() {
                    spec_config_fold(s, k + 1, opt_bytes(dir), opt_bytes(dbf))
                } else {
                    (opt_bytes(dir), opt_bytes(dbf))
                });
            }
            if k < bytes.len() {
                i = k + 1;
            } else {
                i = k;
            }
        }
        proof {
            assert(spec_parse_config(s) == (opt_bytes(dir), opt_bytes(dbf)));
        }
        let ghost gdir = opt_bytes(dir);
        let ghost gdbf = opt_bytes(dbf);
        let dir_s = match dir {
            Some(b) => Some(bytes_to_string_lossy(&b)),
            None => None,
        };
        let dbf_s = match dbf {
            Some(b) => Some(bytes_to_string_lossy(&b)),
            None => None,
        };
        Config { dir: dir_s, dbfilename: dbf_s }
    }

    /// The persisted form of this configuration: a `dir` line when a
    /// directory is set, then a `dbfilename` line when a file name is set.
    pub fn to_text(&self) -> (r: String)
        ensures
            r@ == spec_config_text(
                match self.dir {
                    Some(ref d) => Some(d@),
                    None => None,
                },
                match self.dbfilename {
                    Some(ref f) => Some(f@),
                    None => None,
                },
            ),
    {
        let mut out = String::new();
        match self.dir {
            Some(ref d) => {
                out.append("dir ");
                out.append(d.as_str());
                out.append("\n");
            },
            None => {},
        }
        let ghost first = out@;
        match self.dbfilename {
            Some(ref f) => {
                out.append("dbfilename ");
                out.append(f.as_str());
                out.append("\n");
            },
            None => {},
        }
        proof {
            assert(out@ =~= spec_config_text(
                match self.dir {
                    Some(ref d) => Some(d@),
                    None => None,
                },
                match self.dbfilename {
                    Some(ref f) => Some(f@),
                    None => None,
                },
            ));
        }
        out
    }
}

} // verus!
