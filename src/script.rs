use vstd::prelude::*;

verus! {

/// `s` with each `"` written as `\"` and each `$` as `\$`, so that the shell
/// engine takes both literally.
pub open spec fn escaped(s: Seq<char>) -> Seq<char>
    decreases s.len(),
{
    if s.len() == 0 {
        Seq::empty()
    } else {
        escaped(s.drop_last()) + if s.last() == '"' {
            seq!['\\', '"']
        } else if s.last() == '$' {
            seq!['\\', '$']
        } else {
            seq![s.last()]
        }
    }
}

/// In an escaped argument every `"` and every `$` follows a backslash, so
/// neither reaches the shell engine unescaped.
pub proof fn lemma_escaped_is_inert(s: Seq<char>)
    ensures
        forall|i: int|
            0 <= i < escaped(s).len() && (#[trigger] escaped(s)[i] == '"' || escaped(s)[i] == '$')
                ==> i > 0 && escaped(s)[i - 1] == '\\',
    decreases s.len(),
{
    if s.len() > 0 {
        lemma_escaped_is_inert(s.drop_last());
        let head = escaped(s.drop_last());
        let tail = if s.last() == '"' {
            seq!['\\', '"']
        } else if s.last() == '$' {
            seq!['\\', '$']
        } else {
            seq![s.last()]
        };
        assert(escaped(s) == head + tail);
        assert forall|i: int|
            0 <= i < escaped(s).len() && (#[trigger] escaped(s)[i] == '"' || escaped(s)[i] == '$')
                implies i > 0 && escaped(s)[i - 1] == '\\' by {
            if i < head.len() {
                assert(escaped(s)[i] == head[i]);
                assert(head[i] == '"' || head[i] == '$');
                assert(escaped(s)[i - 1] == head[i - 1]);
            } else {
                assert(escaped(s)[i] == tail[i - head.len()]);
                assert(escaped(s)[i - 1] == (head + tail)[i - 1]);
            }
        }
    }
}

/// `s` escaped and surrounded by double quotes.
pub open spec fn quoted(s: Seq<char>) -> Seq<char> {
    seq!['"'] + escaped(s) + seq!['"']
}

/// The quoted arguments, separated by single spaces.
pub open spec fn joined_args(args: Seq<String>) -> Seq<char>
    decreases args.len(),
{
    if args.len() == 0 {
        Seq::empty()
    } else if args.len() == 1 {
        quoted(args[0]@)
    } else {
        joined_args(args.drop_last()) + seq![' '] + quoted(args.last()@)
    }
}

/// Names what trimming leading and trailing whitespace leaves of `s`.
pub uninterp spec fn trimmed(s: Seq<char>) -> Seq<char>;

/// Relies on str::trim: the text without leading and trailing whitespace,
/// which depends on the text alone; a trailing space is whitespace.
#[verifier::external_body]
fn trim(s: &str) -> (r: String)
    ensures
        r@ == trimmed(s@),
        s@.len() > 0 && s@.last() == ' ' ==> r@ == trimmed(s@.drop_last()),
{
    s.trim().to_string()
}

/// Quotes one pass-through argument, escaping `"` and `$` inside it.
pub fn quote_arg(arg: &str) -> (r: String)
    ensures
        r@ == quoted(arg@),
{
    proof {
        reveal_strlit("\"");
    }
    let mut out = "\"".to_owned();
    let n = arg.unicode_len();
    let mut i: usize = 0;
    while i < n
        invariant
            i <= n,
            n == arg@.len(),
            out@ == seq!['"'] + escaped(arg@.take(i as int)),
        decreases n - i,
    {
        let c = arg.get_char(i);
        assert(arg@.take(i as int + 1).drop_last() =~= arg@.take(i as int));
        assert(arg@.take(i as int + 1).last() == c);
        assert(escaped(arg@.take(i as int + 1)) == escaped(arg@.take(i as int)) + if c == '"' {
            seq!['\\', '"']
        } else if c == '$' {
            seq!['\\', '$']
        } else {
            seq![c]
        });
        let ghost before = out@;
        if c == '"' {
            proof {
                reveal_strlit("\\\"");
            }
            out.append("\\\"");
            assert(out@ =~= before + seq!['\\', '"']);
        } else if c == '$' {
            proof {
                reveal_strlit("\\$");
            }
            out.append("\\$");
            assert(out@ =~= before + seq!['\\', '$']);
        } else {
            let one = arg.substring_char(i, i + 1);
            assert(one@ =~= seq![c]);
            out.append(one);
        }
        assert(out@ =~= seq!['"'] + escaped(arg@.take(i as int + 1)));
        i = i + 1;
    }
    assert(arg@.take(n as int) =~= arg@);
    out.append("\"");
    assert(out@ =~= quoted(arg@));
    out
}

/// The script followed by the quoted pass-through arguments, trimmed.
pub open spec fn script_with_args(script: Seq<char>, args: Seq<String>) -> Seq<char> {
    trimmed(script + seq![' '] + joined_args(args))
}

/// Appends the pass-through arguments to a script, each quoted and escaped.
pub fn get_script_with_args(script: &str, args: &Vec<String>) -> (r: String)
    ensures
        r@ == script_with_args(script@, args@),
        args@.len() == 0 ==> r@ == trimmed(script@),
{
    let mut joined = String::new();
    let mut i: usize = 0;
    while i < args.len()
        invariant
            i <= args@.len(),
            joined@ == joined_args(args@.take(i as int)),
        decreases args@.len() - i,
    {
        let q = quote_arg(args[i].as_str());
        let ghost prev = args@.take(i as int);
        assert(args@.take(i as int + 1).drop_last() =~= prev);
        assert(args@.take(i as int + 1).last() == args@[i as int]);
        let ghost before = joined@;
        if i > 0 {
            proof {
                reveal_strlit(" ");
            }
            joined.append(" ");
            assert(joined@ =~= before + seq![' ']);
        }
        joined.append(q.as_str());
        assert(q@ == quoted(args@[i as int]@));
        proof {
            if i == 0 {
                assert(joined@ =~= joined_args(args@.take(1)));
            } else {
                assert(joined@ =~= joined_args(args@.take(i as int + 1)));
            }
        }
        i = i + 1;
    }
    assert(args@.take(args@.len() as int) =~= args@);
    let mut full = script.to_owned();
    proof {
        reveal_strlit(" ");
    }
    full.append(" ");
    full.append(joined.as_str());
    assert(full@ =~= script@ + seq![' '] + joined_args(args@));
    proof {
        if args@.len() == 0 {
            assert(full@.drop_last() =~= script@);
        }
    }
    trim(full.as_str())
}

} // verus!
