//! The names of the source and of the output, taken from the arguments of
//! the command line.

use vstd::prelude::*;
use crate::words::to_chars;

verus! {

/// Why the arguments name no source.
#[derive(Debug, Clone, Copy, PartialEq, Eq, Structural)]
pub enum ConfigError {
    /// There is no argument after the program's name.
    NotEnoughArguments,
    /// The first argument does not end in `.vm`.
    NotVmFile,
}

/// Whether `s` ends with `suffix`.
pub open spec fn ends_with(s: Seq<char>, suffix: Seq<char>) -> bool {
    suffix.len() <= s.len() && s.skip(s.len() - suffix.len()) == suffix
}

/// `s` with every occurrence of `from` replaced by `to`. Occurrences are
/// found from left to right and do not overlap.
pub open spec fn replace_all(s: Seq<char>, from: Seq<char>, to: Seq<char>) -> Seq<char>
    recommends
        from.len() > 0,
    decreases s.len(),
{
    if from.len() == 0 || s.len() < from.len() {
        s
    } else if s.take(from.len() as int) == from {
        to + replace_all(s.skip(from.len() as int), from, to)
    } else {
        seq![s[0]] + replace_all(s.drop_first(), from, to)
    }
}

/// The name of the output for the source named `src`.
pub open spec fn bin_name(src: Seq<char>) -> Seq<char> {
    replace_all(src, seq!['.', 'v', 'm'], seq!['.', 'a', 's', 'm'])
}

/// The names of the source and of the output of a run.
#[derive(Debug)]
pub struct Config {
    pub srcname: String,
    pub binname: String,
}

impl Config {
    /// Reads the configuration from the arguments of the command line, the
    /// program's own name first. The source is the argument after it and
    /// must end in `.vm`; the output is named like the source, with `.asm`
    /// in place of every `.vm`.
    pub fn parse(args: Vec<String>) -> (r: Result<Config, ConfigError>)
        ensures
            args@.len() < 2 ==> r == Err::<Config, ConfigError>(ConfigError::NotEnoughArguments),
            args@.len() >= 2 && !ends_with(args@[1]@, seq!['.', 'v', 'm']) ==> r == Err::<
                Config,
                ConfigError,
            >(ConfigError::NotVmFile),
            args@.len() >= 2 && ends_with(args@[1]@, seq!['.', 'v', 'm']) ==> r is Ok
                && r->Ok_0.srcname@ == args@[1]@ && r->Ok_0.binname@ == bin_name(args@[1]@),
    {
        if args.len() < 2 {
            return Err(ConfigError::NotEnoughArguments);
        }
        let srcname = args[1].clone();
        let chars = to_chars(srcname.as_str());
        let n = chars.len();
        let ghost from = seq!['.', 'v', 'm'];
        let ghost to = seq!['.', 'a', 's', 'm'];
        if n < 3 || chars[n - 3] != '.' || chars[n - 2] != 'v' || chars[n - 1] != 'm' {
            proof {
                if n >= 3 {
                    let tail = chars@.skip(n - 3);
                    assert(tail[0] == chars@[n - 3]);
                    assert(tail[1] == chars@[n - 2]);
                    assert(tail[2] == chars@[n - 1]);
                }
            }
            return Err(ConfigError::NotVmFile);
        }
        assert(chars@.skip(n - 3) =~= from);
        let mut binname = String::new();
        let mut i: usize = 0;
        assert(chars@.skip(0) =~= chars@);
        while i < n
            invariant
                i <= n,
                n == chars@.len(),
                from == seq!['.', 'v', 'm'],
                to == seq!['.', 'a', 's', 'm'],
                binname@ + replace_all(chars@.skip(i as int), from, to) == replace_all(
                    chars@,
                    from,
                    to,
                ),
            decreases n - i,
        {
            let ghost rest = chars@.skip(i as int);
            let ghost before = binname@;
            if n - i >= 3 && chars[i] == '.' && chars[i + 1] == 'v' && chars[i + 2] == 'm' {
                binname.push('.');
                binname.push('a');
                binname.push('s');
                binname.push('m');
                proof {
                    assert(rest.take(3) =~= from);
                    assert(rest.skip(3) =~= chars@.skip(i + 3));
                    assert(binname@ =~= before + to);
                    assert(binname@ + replace_all(chars@.skip(i + 3), from, to) =~= before
                        + replace_all(rest, from, to));
                }
                i = i + 3;
            } else {
                binname.push(chars[i]);
                proof {
                    assert(rest.drop_first() =~= chars@.skip(i + 1));
                    if rest.len() >= 3 {
                        assert(rest.take(3)[0] == chars@[i as int]);
                        assert(rest.take(3)[1] == chars@[i + 1]);
                        assert(rest.take(3)[2] == chars@[i + 2]);
                        assert(rest.take(3) != from);
                        assert(binname@ + replace_all(chars@.skip(i + 1), from, to) =~= before
                            + replace_all(rest, from, to));
                    } else {
                        lemma_short_unchanged(rest, from, to);
                        lemma_short_unchanged(rest.drop_first(), from, to);
                        assert(binname@ + rest.drop_first() =~= before + rest);
                    }
                }
                i = i + 1;
            }
        }
        assert(chars@.skip(n as int) =~= Seq::<char>::empty());
        assert(binname@ =~= binname@ + Seq::<char>::empty());
        Ok(Config { srcname, binname })
    }
}

/// A text shorter than what is looked for holds no occurrence of it.
proof fn lemma_short_unchanged(s: Seq<char>, from: Seq<char>, to: Seq<char>)
    requires
        s.len() < from.len(),
    ensures
        replace_all(s, from, to) == s,
{
}

} // verus!
