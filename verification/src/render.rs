//! Shell-safe rendering of a command line for logging and dry-run display.
//!
//! Rendering never executes anything and is deterministic for a given
//! invocation: the program name followed by each argument individually
//! quoted for a POSIX shell.

use vstd::prelude::*;

verus! {

/// The characters a POSIX shell gives special meaning outside quotes.  The
/// word-splitting model below refuses them, and quoting keeps every argument
/// character inside single quotes, so none of these can reach the shell
/// unprotected.
pub open spec fn sh_special(c: char) -> bool {
    ||| c == '|'
    ||| c == '&'
    ||| c == ';'
    ||| c == '<'
    ||| c == '>'
    ||| c == '('
    ||| c == ')'
    ||| c == '$'
    ||| c == '`'
    ||| c == '"'
    ||| c == '*'
    ||| c == '?'
    ||| c == '['
    ||| c == '#'
    ||| c == '~'
    ||| c == '!'
    ||| c == '\n'
    ||| c == '\t'
}

/// How one argument character is written inside a single-quoted word: a
/// single quote cannot stand inside single quotes, so it is written by
/// closing the quotes, escaping the quote, and reopening them.
pub open spec fn sh_quote_char(c: char) -> Seq<char> {
    if c == '\'' {
        seq!['\'', '\\', '\'', '\'']
    } else {
        seq![c]
    }
}

/// The body of a quoted argument: each character in turn.
pub open spec fn sh_quoted_body(s: Seq<char>) -> Seq<char>
    decreases s.len(),
{
    if s.len() == 0 {
        Seq::empty()
    } else {
        sh_quote_char(s[0]) + sh_quoted_body(s.drop_first())
    }
}

/// One argument, quoted for a POSIX shell: wrapped in single quotes, with
/// embedded single quotes escaped.  An empty argument stays visible as `''`.
pub open spec fn sh_quoted(arg: Seq<char>) -> Seq<char> {
    seq!['\''] + sh_quoted_body(arg) + seq!['\'']
}

/// The rendered argument tail: one leading space and one quoted word per
/// argument.
pub open spec fn rendered_args(args: Seq<Seq<char>>) -> Seq<char>
    decreases args.len(),
{
    if args.len() == 0 {
        Seq::empty()
    } else {
        seq![' '] + sh_quoted(args[0]) + rendered_args(args.drop_first())
    }
}

/// The single-line, shell-safe rendering of a whole invocation.
pub open spec fn spec_render(program: Seq<char>, args: Seq<Seq<char>>) -> Seq<char> {
    program + rendered_args(args)
}

proof fn lemma_quoted_body_snoc(s: Seq<char>)
    requires
        s.len() > 0,
    ensures
        sh_quoted_body(s) == sh_quoted_body(s.drop_last()) + sh_quote_char(s.last()),
    decreases s.len(),
{
    if s.len() == 1 {
        assert(s.drop_first() =~= Seq::<char>::empty());
        assert(s.drop_last() =~= Seq::<char>::empty());
        assert(sh_quoted_body(s) =~= sh_quoted_body(s.drop_last()) + sh_quote_char(s.last()));
    } else {
        lemma_quoted_body_snoc(s.drop_first());
        assert(s.drop_first().drop_last() =~= s.drop_last().drop_first());
        assert(s.drop_first().last() == s.last());
        assert(s.drop_last()[0] == s[0]);
        assert(sh_quoted_body(s.drop_last()) == sh_quote_char(s[0]) + sh_quoted_body(
            s.drop_last().drop_first(),
        ));
        assert(sh_quoted_body(s) =~= sh_quoted_body(s.drop_last()) + sh_quote_char(s.last()));
    }
}

/// Relies on String::push: appends exactly the given character.
#[verifier::external_body]
pub(crate) fn push_char(s: &mut String, c: char)
    ensures
        final(s)@ == old(s)@.push(c),
{
    s.push(c);
}

/// Quote one argument for a POSIX shell.
pub fn sh_quote(arg: &str) -> (r: String)
    ensures
        r@ == sh_quoted(arg@),
{
    let n = arg.unicode_len();
    let mut r = String::new();
    push_char(&mut r, '\'');
    let mut i: usize = 0;
    while i < n
        invariant
            i <= n,
            n == arg@.len(),
            r@ == seq!['\''] + sh_quoted_body(arg@.take(i as int)),
        decreases n - i,
    {
        let c = arg.get_char(i);
        if c == '\'' {
            push_char(&mut r, '\'');
            push_char(&mut r, '\\');
            push_char(&mut r, '\'');
            push_char(&mut r, '\'');
        } else {
            push_char(&mut r, c);
        }
        proof {
            let t = arg@.take(i + 1);
            assert(t.drop_last() =~= arg@.take(i as int));
            assert(t.last() == arg@[i as int]);
            lemma_quoted_body_snoc(t);
            assert(r@ =~= seq!['\''] + sh_quoted_body(arg@.take(i + 1)));
        }
        i = i + 1;
    }
    proof {
        assert(arg@.take(n as int) =~= arg@);
    }
    push_char(&mut r, '\'');
    proof {
        assert(r@ =~= sh_quoted(arg@));
    }
    r
}

/// Render `program` followed by each argument of `args`, every argument
/// individually quoted.
pub fn render_command(program: &String, args: &Vec<String>) -> (r: String)
    ensures
        r@ == spec_render(program@, args.deep_view()),
{
    let mut r = program.clone();
    let mut i: usize = 0;
    while i < args.len()
        invariant
            i <= args@.len(),
            r@ == program@ + rendered_args(args.deep_view().take(i as int)),
        decreases args@.len() - i,
    {
        push_char(&mut r, ' ');
        let q = sh_quote(args[i].as_str());
        r.append(q.as_str());
        proof {
            lemma_rendered_args_snoc(args.deep_view().take(i + 1));
            assert(args.deep_view().take(i + 1).drop_last() =~= args.deep_view().take(i as int));
            assert(args.deep_view().take(i + 1).last() == args.deep_view()[i as int]);
            assert(args.deep_view()[i as int] == args@[i as int]@);
            assert(r@ =~= program@ + rendered_args(args.deep_view().take(i + 1)));
        }
        i = i + 1;
    }
    proof {
        assert(args.deep_view().take(args@.len() as int) =~= args.deep_view());
    }
    r
}

/// A character a POSIX shell passes through unquoted, with no special
/// meaning: anything but whitespace, quoting characters and the special set.
pub open spec fn plain_char(c: char) -> bool {
    c != ' ' && c != '\'' && c != '\\' && !sh_special(c)
}

/// A word a shell reads back as-is without any quoting.
pub open spec fn plain_word(w: Seq<char>) -> bool {
    w.len() > 0 && forall|k: int| 0 <= k < w.len() ==> plain_char(w[k])
}

/// A POSIX shell's field splitting, restricted to the forms rendering can
/// emit: plain characters, space as the separator, single-quoted spans, and
/// backslash escapes outside quotes.  Any character the shell would give
/// special meaning makes the split undefined, and so does an unclosed quote
/// or a trailing backslash.  `in_quote` tells whether the scan stands inside
/// single quotes, `started` whether the current field has begun, `cur` the
/// current field's characters and `words` the fields already finished.
pub open spec fn sh_split_rec(
    s: Seq<char>,
    i: int,
    in_quote: bool,
    started: bool,
    cur: Seq<char>,
    words: Seq<Seq<char>>,
) -> Option<Seq<Seq<char>>>
    decreases s.len() - i when 0 <= i <= s.len()
{
    if i >= s.len() {
        if in_quote {
            None
        } else if started {
            Some(words.push(cur))
        } else {
            Some(words)
        }
    } else {
        let c = s[i];
        if in_quote {
            if c == '\'' {
                sh_split_rec(s, i + 1, false, started, cur, words)
            } else {
                sh_split_rec(s, i + 1, true, started, cur.push(c), words)
            }
        } else {
            if c == ' ' {
                if started {
                    sh_split_rec(s, i + 1, false, false, Seq::empty(), words.push(cur))
                } else {
                    sh_split_rec(s, i + 1, false, false, cur, words)
                }
            } else if c == '\'' {
                sh_split_rec(s, i + 1, true, true, cur, words)
            } else if c == '\\' {
                if i + 1 < s.len() {
                    sh_split_rec(s, i + 2, false, true, cur.push(s[i + 1]), words)
                } else {
                    None
                }
            } else if sh_special(c) {
                None
            } else {
                sh_split_rec(s, i + 1, false, true, cur.push(c), words)
            }
        }
    }
}

/// The argument vector a POSIX shell would split `s` into.
pub open spec fn sh_split(s: Seq<char>) -> Option<Seq<Seq<char>>> {
    sh_split_rec(s, 0, false, false, Seq::empty(), Seq::empty())
}

/// Inside single quotes, consuming a rendered argument body and its closing
/// quote appends exactly the argument to the current field.
proof fn lemma_split_quoted_body(
    arg: Seq<char>,
    s: Seq<char>,
    i: int,
    cur: Seq<char>,
    words: Seq<Seq<char>>,
)
    requires
        0 <= i,
        i + sh_quoted_body(arg).len() + 1 <= s.len(),
        s.subrange(i, i + sh_quoted_body(arg).len() + 1) == sh_quoted_body(arg) + seq!['\''],
    ensures
        sh_split_rec(s, i, true, true, cur, words) == sh_split_rec(
            s,
            i + sh_quoted_body(arg).len() + 1,
            false,
            true,
            cur + arg,
            words,
        ),
    decreases arg.len(),
{
    let body = sh_quoted_body(arg);
    let piece = s.subrange(i, i + body.len() + 1);
    if arg.len() == 0 {
        assert(body =~= Seq::<char>::empty());
        assert(s[i] == piece[0]);
        assert(s[i] == '\'');
        assert(cur + arg =~= cur);
    } else {
        let c = arg[0];
        let rest = arg.drop_first();
        assert(body == sh_quote_char(c) + sh_quoted_body(rest));
        if c == '\'' {
            assert(body.len() == 4 + sh_quoted_body(rest).len());
            assert(s[i] == piece[0] && s[i + 1] == piece[1] && s[i + 2] == piece[2] && s[i + 3]
                == piece[3]);
            assert(s[i] == '\'' && s[i + 1] == '\\' && s[i + 2] == '\'' && s[i + 3] == '\'');
            assert(sh_split_rec(s, i, true, true, cur, words) == sh_split_rec(
                s,
                i + 1,
                false,
                true,
                cur,
                words,
            ));
            assert(i + 2 < s.len());
            assert(sh_split_rec(s, i + 1, false, true, cur, words) == sh_split_rec(
                s,
                i + 3,
                false,
                true,
                cur.push('\''),
                words,
            ));
            assert(sh_split_rec(s, i + 3, false, true, cur.push('\''), words) == sh_split_rec(
                s,
                i + 4,
                true,
                true,
                cur.push('\''),
                words,
            ));
            assert(s.subrange(i + 4, i + 4 + sh_quoted_body(rest).len() + 1) =~= sh_quoted_body(
                rest,
            ) + seq!['\'']) by {
                assert forall|k: int|
                    0 <= k < sh_quoted_body(rest).len() + 1 implies s.subrange(
                    i + 4,
                    i + 4 + sh_quoted_body(rest).len() + 1,
                )[k] == (sh_quoted_body(rest) + seq!['\''])[k] by {
                    assert(s.subrange(i + 4, i + 4 + sh_quoted_body(rest).len() + 1)[k] == piece[k
                        + 4]);
                }
            }
            lemma_split_quoted_body(rest, s, i + 4, cur.push('\''), words);
            assert(cur.push('\'') + rest =~= cur + arg);
        } else {
            assert(body.len() == 1 + sh_quoted_body(rest).len());
            assert(s[i] == piece[0]);
            assert(s[i] == c);
            assert(sh_split_rec(s, i, true, true, cur, words) == sh_split_rec(
                s,
                i + 1,
                true,
                true,
                cur.push(c),
                words,
            ));
            assert(s.subrange(i + 1, i + 1 + sh_quoted_body(rest).len() + 1) =~= sh_quoted_body(
                rest,
            ) + seq!['\'']) by {
                assert forall|k: int|
                    0 <= k < sh_quoted_body(rest).len() + 1 implies s.subrange(
                    i + 1,
                    i + 1 + sh_quoted_body(rest).len() + 1,
                )[k] == (sh_quoted_body(rest) + seq!['\''])[k] by {
                    assert(s.subrange(i + 1, i + 1 + sh_quoted_body(rest).len() + 1)[k] == piece[k
                        + 1]);
                }
            }
            lemma_split_quoted_body(rest, s, i + 1, cur.push(c), words);
            assert(cur.push(c) + rest =~= cur + arg);
        }
    }
}

/// With a field underway outside quotes, consuming the rendered argument
/// tail finishes that field and then yields one field per argument.
proof fn lemma_split_rendered_args(
    args: Seq<Seq<char>>,
    s: Seq<char>,
    i: int,
    w: Seq<char>,
    words: Seq<Seq<char>>,
)
    requires
        0 <= i <= s.len(),
        s.subrange(i, s.len() as int) == rendered_args(args),
    ensures
        sh_split_rec(s, i, false, true, w, words) == Some(words + seq![w] + args),
    decreases args.len(),
{
    if args.len() == 0 {
        assert(rendered_args(args) =~= Seq::<char>::empty());
        assert(s.len() - i == 0);
        assert(words.push(w) =~= words + seq![w] + args);
    } else {
        let a = args[0];
        let rest = args.drop_first();
        let tail = s.subrange(i, s.len() as int);
        assert(tail == seq![' '] + sh_quoted(a) + rendered_args(rest));
        assert(s[i] == tail[0]);
        assert(s[i] == ' ');
        assert(sh_split_rec(s, i, false, true, w, words) == sh_split_rec(
            s,
            i + 1,
            false,
            false,
            Seq::empty(),
            words.push(w),
        ));
        assert(s[i + 1] == tail[1]);
        assert(tail[1] == sh_quoted(a)[0]);
        assert(s[i + 1] == '\'');
        assert(sh_split_rec(s, i + 1, false, false, Seq::empty(), words.push(w)) == sh_split_rec(
            s,
            i + 2,
            true,
            true,
            Seq::empty(),
            words.push(w),
        ));
        let body = sh_quoted_body(a);
        assert(i + 2 + body.len() + 1 <= s.len());
        assert(s.subrange(i + 2, i + 2 + body.len() + 1) =~= body + seq!['\'']) by {
            assert forall|k: int|
                0 <= k < body.len() + 1 implies s.subrange(i + 2, i + 2 + body.len() + 1)[k] == (
            body + seq!['\''])[k] by {
                assert(s.subrange(i + 2, i + 2 + body.len() + 1)[k] == tail[k + 2]);
                assert(tail[k + 2] == (sh_quoted(a) + rendered_args(rest))[k + 1]);
            }
        }
        lemma_split_quoted_body(a, s, i + 2, Seq::empty(), words.push(w));
        assert(Seq::<char>::empty() + a =~= a);
        let next = i + 2 + body.len() + 1;
        assert(s.subrange(next, s.len() as int) =~= rendered_args(rest)) by {
            assert forall|k: int|
                0 <= k < s.len() - next implies s.subrange(next, s.len() as int)[k]
                == rendered_args(rest)[k] by {
                assert(s.subrange(next, s.len() as int)[k] == tail[k + 2 + body.len() + 1]);
            }
        }
        lemma_split_rendered_args(rest, s, next, a, words.push(w));
        assert(words.push(w) + seq![a] + rest =~= words + seq![w] + args);
    }
}

/// Consuming a plain word character by character builds exactly that field.
proof fn lemma_split_plain_chars(w: Seq<char>, s: Seq<char>, i: int, cur: Seq<char>, words: Seq<Seq<char>>)
    requires
        0 <= i,
        i + w.len() <= s.len(),
        s.subrange(i, i + w.len()) == w,
        forall|k: int| 0 <= k < w.len() ==> plain_char(w[k]),
    ensures
        sh_split_rec(s, i, false, true, cur, words) == sh_split_rec(
            s,
            i + w.len(),
            false,
            true,
            cur + w,
            words,
        ),
    decreases w.len(),
{
    if w.len() == 0 {
        assert(cur + w =~= cur);
    } else {
        let c = w[0];
        assert(s[i] == s.subrange(i, i + w.len())[0]);
        assert(s[i] == c);
        assert(plain_char(c));
        assert(sh_split_rec(s, i, false, true, cur, words) == sh_split_rec(
            s,
            i + 1,
            false,
            true,
            cur.push(c),
            words,
        ));
        let rest = w.drop_first();
        assert(s.subrange(i + 1, i + 1 + rest.len()) =~= rest) by {
            assert forall|k: int| 0 <= k < rest.len() implies s.subrange(i + 1, i + 1 + rest.len())[k]
                == rest[k] by {
                assert(s.subrange(i + 1, i + 1 + rest.len())[k] == s.subrange(i, i + w.len())[k
                    + 1]);
            }
        }
        lemma_split_plain_chars(rest, s, i + 1, cur.push(c), words);
        assert(cur.push(c) + rest =~= cur + w);
    }
}

/// Round-trip quoting: rendering a command whose program name is a plain
/// shell word, then splitting the rendering as a POSIX shell would, yields
/// back exactly the program followed by the original argument list — however
/// many spaces, quotes or shell metacharacters the arguments hold.
pub proof fn lemma_render_round_trip(program: Seq<char>, args: Seq<Seq<char>>)
    requires
        plain_word(program),
    ensures
        sh_split(spec_render(program, args)) == Some(seq![program] + args),
{
    let s = spec_render(program, args);
    assert(s.subrange(0, program.len() as int) =~= program);
    assert(s[0] == program[0]);
    assert(plain_char(s[0]));
    assert(sh_split_rec(s, 0, false, false, Seq::empty(), Seq::empty()) == sh_split_rec(
        s,
        1,
        false,
        true,
        seq![program[0]],
        Seq::empty(),
    ));
    let rest = program.drop_first();
    assert(s.subrange(1, 1 + rest.len() as int) =~= rest) by {
        assert forall|k: int| 0 <= k < rest.len() implies s.subrange(1, 1 + rest.len() as int)[k]
            == rest[k] by {
            assert(s.subrange(1, 1 + rest.len() as int)[k] == s.subrange(0, program.len() as int)[k + 1]);
        }
    }
    lemma_split_plain_chars(rest, s, 1, seq![program[0]], Seq::empty());
    assert(seq![program[0]] + rest =~= program);
    assert(s.subrange(program.len() as int, s.len() as int) =~= rendered_args(args));
    lemma_split_rendered_args(args, s, program.len() as int, program, Seq::empty());
    assert(Seq::<Seq<char>>::empty() + seq![program] + args =~= seq![program] + args);
}

proof fn lemma_rendered_args_snoc(args: Seq<Seq<char>>)
    requires
        args.len() > 0,
    ensures
        rendered_args(args) == rendered_args(args.drop_last()) + seq![' '] + sh_quoted(
            args.last(),
        ),
    decreases args.len(),
{
    if args.len() == 1 {
        assert(args.drop_first() =~= Seq::<Seq<char>>::empty());
        assert(args.drop_last() =~= Seq::<Seq<char>>::empty());
        assert(rendered_args(args) =~= rendered_args(args.drop_last()) + seq![' '] + sh_quoted(
            args.last(),
        ));
    } else {
        lemma_rendered_args_snoc(args.drop_first());
        assert(args.drop_first().drop_last() =~= args.drop_last().drop_first());
        assert(args.drop_first().last() == args.last());
        assert(args.drop_last()[0] == args[0]);
        assert(rendered_args(args.drop_last()) == seq![' '] + sh_quoted(args[0]) + rendered_args(
            args.drop_last().drop_first(),
        ));
        assert(rendered_args(args) =~= rendered_args(args.drop_last()) + seq![' '] + sh_quoted(
            args.last(),
        ));
    }
}

} // verus!
