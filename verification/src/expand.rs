//! Template expansion: the two magic tokens that a `cmd` template may carry,
//! and their replacement by the invocation's trailing arguments.

use vstd::prelude::*;

verus! {

/// The token that splices every trailing argument in place.
pub open spec fn args_token() -> Seq<char> {
    "{{ARGS}}"@
}

/// The token that stands for the path of a freshly written arguments file.
pub open spec fn argsfile_token() -> Seq<char> {
    "{{ARGSFILE}}"@
}

/// How many template tokens ask for an arguments file. The extra test
/// against the splice token mirrors `expand_model`, which gives the splice
/// token precedence, so the two functions always agree on which tokens
/// consume a path.
pub open spec fn count_argsfile(raw: Seq<Seq<char>>) -> nat
    decreases raw.len(),
{
    if raw.len() == 0 {
        0
    } else {
        (if raw[0] == argsfile_token() && raw[0] != args_token() {
            1nat
        } else {
            0nat
        }) + count_argsfile(raw.skip(1))
    }
}

/// The expanded argument list: template tokens left to right, the splice
/// token replaced by all of `kd`, each file token by the next path of
/// `paths`, and every other token kept in place.
pub open spec fn expand_model(raw: Seq<Seq<char>>, kd: Seq<Seq<char>>, paths: Seq<Seq<char>>) -> Seq<
    Seq<char>,
>
    decreases raw.len(),
{
    if raw.len() == 0 {
        Seq::empty()
    } else if raw[0] == args_token() {
        kd + expand_model(raw.skip(1), kd, paths)
    } else if raw[0] == argsfile_token() {
        seq![paths[0]] + expand_model(raw.skip(1), kd, paths.skip(1))
    } else {
        seq![raw[0]] + expand_model(raw.skip(1), kd, paths)
    }
}

/// Counting file tokens distributes over concatenation.
proof fn lemma_count_concat(a: Seq<Seq<char>>, b: Seq<Seq<char>>)
    ensures
        count_argsfile(a + b) == count_argsfile(a) + count_argsfile(b),
    decreases a.len(),
{
    if a.len() == 0 {
        assert(a + b =~= b);
    } else {
        assert((a + b).skip(1) =~= a.skip(1) + b);
        assert((a + b)[0] == a[0]);
        lemma_count_concat(a.skip(1), b);
    }
}

/// A prefix never asks for more arguments files than the whole template.
proof fn lemma_count_prefix_le(raw: Seq<Seq<char>>, i: int)
    requires
        0 <= i <= raw.len(),
    ensures
        count_argsfile(raw.take(i)) <= count_argsfile(raw),
{
    assert(raw =~= raw.take(i) + raw.skip(i));
    lemma_count_concat(raw.take(i), raw.skip(i));
}

/// Expansion distributes over concatenation: the second part starts with the
/// paths the first part has not consumed.
proof fn lemma_expand_concat(a: Seq<Seq<char>>, b: Seq<Seq<char>>, kd: Seq<Seq<char>>, paths: Seq<Seq<char>>)
    requires
        count_argsfile(a) <= paths.len(),
    ensures
        expand_model(a + b, kd, paths) == expand_model(a, kd, paths) + expand_model(
            b,
            kd,
            paths.skip(count_argsfile(a) as int),
        ),
    decreases a.len(),
{
    if a.len() == 0 {
        assert(a + b =~= b);
        assert(paths.skip(0) =~= paths);
    } else {
        assert((a + b).skip(1) =~= a.skip(1) + b);
        assert((a + b)[0] == a[0]);
        if a[0] == args_token() {
            lemma_expand_concat(a.skip(1), b, kd, paths);
            assert(expand_model(a + b, kd, paths) =~= expand_model(a, kd, paths) + expand_model(
                b,
                kd,
                paths.skip(count_argsfile(a) as int),
            ));
        } else if a[0] == argsfile_token() {
            assert(count_argsfile(a) == 1 + count_argsfile(a.skip(1)));
            lemma_expand_concat(a.skip(1), b, kd, paths.skip(1));
            vstd::seq_lib::lemma_seq_skip_of_skip(paths, 1, count_argsfile(a.skip(1)) as int);
            assert(expand_model(a + b, kd, paths) =~= expand_model(a, kd, paths) + expand_model(
                b,
                kd,
                paths.skip(count_argsfile(a) as int),
            ));
        } else {
            lemma_expand_concat(a.skip(1), b, kd, paths);
            assert(expand_model(a + b, kd, paths) =~= expand_model(a, kd, paths) + expand_model(
                b,
                kd,
                paths.skip(count_argsfile(a) as int),
            ));
        }
    }
}

/// A one-token template asks for an arguments file exactly when that token is
/// the file token.
proof fn lemma_count_singleton(x: Seq<char>)
    ensures
        count_argsfile(seq![x]) == (if x == argsfile_token() && x != args_token() {
            1nat
        } else {
            0nat
        }),
{
    assert(seq![x].skip(1) =~= Seq::<Seq<char>>::empty());
    assert(count_argsfile(Seq::<Seq<char>>::empty()) == 0);
}

/// What a one-token template expands to.
proof fn lemma_expand_singleton(x: Seq<char>, kd: Seq<Seq<char>>, paths: Seq<Seq<char>>)
    ensures
        expand_model(seq![x], kd, paths) == (if x == args_token() {
            kd
        } else if x == argsfile_token() {
            seq![paths[0]]
        } else {
            seq![x]
        }),
{
    assert(seq![x].skip(1) =~= Seq::<Seq<char>>::empty());
    assert(expand_model(Seq::<Seq<char>>::empty(), kd, paths) == Seq::<Seq<char>>::empty());
    assert(expand_model(Seq::<Seq<char>>::empty(), kd, paths.skip(1)) == Seq::<Seq<char>>::empty());
    if x == args_token() {
        assert(expand_model(seq![x], kd, paths) =~= kd);
    } else if x == argsfile_token() {
        assert(expand_model(seq![x], kd, paths) =~= seq![paths[0]]);
    } else {
        assert(expand_model(seq![x], kd, paths) =~= seq![x]);
    }
}

/// A template without magic tokens expands to itself.
proof fn lemma_expand_no_tokens(a: Seq<Seq<char>>, kd: Seq<Seq<char>>, paths: Seq<Seq<char>>)
    requires
        forall|k: int| 0 <= k < a.len() ==> #[trigger] a[k] != args_token() && a[k]
            != argsfile_token(),
    ensures
        expand_model(a, kd, paths) == a,
        count_argsfile(a) == 0,
    decreases a.len(),
{
    if a.len() > 0 {
        lemma_expand_no_tokens(a.skip(1), kd, paths);
        assert(expand_model(a, kd, paths) =~= a);
    } else {
        assert(expand_model(a, kd, paths) =~= a);
    }
}

/// With the splice token at position `i` and no other magic token anywhere in
/// the template, expansion replaces exactly that token by the trailing
/// arguments, in order, and leaves every other token unchanged and in
/// position.
pub proof fn lemma_splice_token_once(
    raw: Seq<Seq<char>>,
    kd: Seq<Seq<char>>,
    paths: Seq<Seq<char>>,
    i: int,
)
    requires
        0 <= i < raw.len(),
        raw[i] == args_token(),
        forall|j: int|
            0 <= j < raw.len() && j != i ==> #[trigger] raw[j] != args_token() && raw[j]
                != argsfile_token(),
    ensures
        expand_model(raw, kd, paths) == raw.take(i) + kd + raw.skip(i + 1),
{
    let pre = raw.take(i);
    let suf = raw.skip(i + 1);
    assert forall|k: int| 0 <= k < pre.len() implies #[trigger] pre[k] != args_token() && pre[k]
        != argsfile_token() by {
        assert(pre[k] == raw[k]);
    }
    assert forall|k: int| 0 <= k < suf.len() implies #[trigger] suf[k] != args_token() && suf[k]
        != argsfile_token() by {
        assert(suf[k] == raw[i + 1 + k]);
    }
    lemma_expand_no_tokens(pre, kd, paths);
    lemma_expand_no_tokens(suf, kd, paths);
    assert(raw =~= pre + (seq![raw[i]] + suf));
    lemma_expand_concat(pre, seq![raw[i]] + suf, kd, paths);
    assert(paths.skip(0) =~= paths);
    assert((seq![raw[i]] + suf).skip(1) =~= suf);
    assert((seq![raw[i]] + suf)[0] == raw[i]);
    assert(expand_model(seq![raw[i]] + suf, kd, paths) =~= kd + suf);
    assert(expand_model(raw, kd, paths) =~= raw.take(i) + kd + raw.skip(i + 1));
}

/// With the file token at position `i` and no other magic token anywhere in
/// the template, the template asks for exactly one arguments file, and
/// expansion replaces exactly that token by the first path, leaving every
/// other token unchanged and in position.
pub proof fn lemma_argsfile_token_once(
    raw: Seq<Seq<char>>,
    kd: Seq<Seq<char>>,
    paths: Seq<Seq<char>>,
    i: int,
)
    requires
        0 <= i < raw.len(),
        raw[i] == argsfile_token(),
        paths.len() >= 1,
        forall|j: int|
            0 <= j < raw.len() && j != i ==> #[trigger] raw[j] != args_token() && raw[j]
                != argsfile_token(),
    ensures
        count_argsfile(raw) == 1,
        expand_model(raw, kd, paths) == raw.take(i) + seq![paths[0]] + raw.skip(i + 1),
{
    reveal_strlit("{{ARGS}}");
    reveal_strlit("{{ARGSFILE}}");
    assert(args_token().len() == 8);
    assert(argsfile_token().len() == 12);
    assert(args_token() != argsfile_token());
    let pre = raw.take(i);
    let suf = raw.skip(i + 1);
    assert forall|k: int| 0 <= k < pre.len() implies #[trigger] pre[k] != args_token() && pre[k]
        != argsfile_token() by {
        assert(pre[k] == raw[k]);
    }
    assert forall|k: int| 0 <= k < suf.len() implies #[trigger] suf[k] != args_token() && suf[k]
        != argsfile_token() by {
        assert(suf[k] == raw[i + 1 + k]);
    }
    lemma_expand_no_tokens(pre, kd, paths);
    lemma_expand_no_tokens(suf, kd, paths.skip(1));
    assert(raw =~= pre + (seq![raw[i]] + suf));
    lemma_expand_concat(pre, seq![raw[i]] + suf, kd, paths);
    assert(paths.skip(0) =~= paths);
    assert((seq![raw[i]] + suf).skip(1) =~= suf);
    assert((seq![raw[i]] + suf)[0] == raw[i]);
    assert(expand_model(seq![raw[i]] + suf, kd, paths) =~= seq![paths[0]] + suf);
    assert(expand_model(raw, kd, paths) =~= raw.take(i) + seq![paths[0]] + raw.skip(i + 1));
    lemma_count_concat(pre, seq![raw[i]] + suf);
    lemma_count_concat(seq![raw[i]], suf);
    lemma_count_singleton(raw[i]);
    assert(count_argsfile(raw) == 1);
}

/// Whether `s` is the splice token.
fn is_args_token(s: &String) -> (r: bool)
    ensures
        r == (s@ == args_token()),
{
    let t = String::from_str("{{ARGS}}");
    *s == t
}

/// Whether `s` is the arguments-file token.
fn is_argsfile_token(s: &String) -> (r: bool)
    ensures
        r == (s@ == argsfile_token()),
{
    let t = String::from_str("{{ARGSFILE}}");
    *s == t
}

/// How many arguments files the template will need, one per file token.
pub fn count_argsfile_tokens(raw_args: &Vec<String>) -> (r: usize)
    ensures
        r == count_argsfile(raw_args.deep_view()),
{
    let ghost raw = raw_args.deep_view();
    let mut count: usize = 0;
    let n = raw_args.len();
    for i in 0..n
        invariant
            n == raw_args.len(),
            raw == raw_args.deep_view(),
            count == count_argsfile(raw.take(i as int)),
            count <= i,
    {
        proof {
            assert(raw.take(i + 1) =~= raw.take(i as int) + seq![raw[i as int]]);
            lemma_count_concat(raw.take(i as int), seq![raw[i as int]]);
            lemma_count_singleton(raw[i as int]);
            assert(raw[i as int] == raw_args[i as int]@);
        }
        if is_argsfile_token(&raw_args[i]) && !is_args_token(&raw_args[i]) {
            count = count + 1;
        }
    }
    proof {
        assert(raw.take(n as int) =~= raw);
    }
    count
}

/// Replace the magic tokens of a `cmd` template by the trailing arguments of
/// the invocation: the splice token becomes all of `kd_args` in order, each
/// file token becomes the next of `argsfile_paths`, and every other token
/// passes through unchanged. Only whole-token equality triggers substitution.
pub fn replace_magic_strings_with_kd_args(
    raw_args: Vec<String>,
    kd_args: &Vec<String>,
    argsfile_paths: Vec<String>,
) -> (r: Vec<String>)
    requires
        count_argsfile(raw_args.deep_view()) == argsfile_paths.deep_view().len(),
    ensures
        r.deep_view() == expand_model(
            raw_args.deep_view(),
            kd_args.deep_view(),
            argsfile_paths.deep_view(),
        ),
{
    let ghost raw = raw_args.deep_view();
    let ghost kd = kd_args.deep_view();
    let ghost paths = argsfile_paths.deep_view();
    let mut out: Vec<String> = Vec::new();
    let mut pi: usize = 0;
    let n = raw_args.len();
    let np = argsfile_paths.len();
    for i in 0..n
        invariant
            n == raw_args.len(),
            np == argsfile_paths.len(),
            raw == raw_args.deep_view(),
            kd == kd_args.deep_view(),
            paths == argsfile_paths.deep_view(),
            paths.len() == np,
            count_argsfile(raw) == paths.len(),
            pi == count_argsfile(raw.take(i as int)),
            pi <= paths.len(),
            out.deep_view() == expand_model(raw.take(i as int), kd, paths),
    {
        proof {
            assert(raw.take(i + 1) =~= raw.take(i as int) + seq![raw[i as int]]);
            lemma_count_concat(raw.take(i as int), seq![raw[i as int]]);
            lemma_count_singleton(raw[i as int]);
            lemma_expand_concat(raw.take(i as int), seq![raw[i as int]], kd, paths);
            lemma_expand_singleton(raw[i as int], kd, paths.skip(pi as int));
            lemma_count_prefix_le(raw, i + 1);
            assert(raw[i as int] == raw_args[i as int]@);
        }
        if is_args_token(&raw_args[i]) {
            let ghost prev = out.deep_view();
            let m = kd_args.len();
            for j in 0..m
                invariant
                    m == kd_args.len(),
                    kd == kd_args.deep_view(),
                    out.deep_view() == prev + kd.take(j as int),
            {
                proof {
                    assert(kd[j as int] == kd_args[j as int]@);
                }
                let ghost before = out.deep_view();
                out.push(kd_args[j].clone());
                proof {
                    assert(out.deep_view() =~= before.push(kd[j as int]));
                    assert(before.push(kd[j as int]) =~= prev + kd.take(j + 1));
                }
            }
            proof {
                assert(kd.take(m as int) =~= kd);
                assert(out.deep_view() =~= expand_model(raw.take(i + 1), kd, paths));
            }
        } else if is_argsfile_token(&raw_args[i]) {
            proof {
                assert(count_argsfile(raw.take(i + 1)) == pi + 1);
                assert(pi < np);
                assert(paths.skip(pi as int)[0] == paths[pi as int]);
                assert(paths[pi as int] == argsfile_paths[pi as int]@);
            }
            let ghost before = out.deep_view();
            out.push(argsfile_paths[pi].clone());
            pi = pi + 1;
            proof {
                assert(out.deep_view() =~= before.push(paths[pi - 1]));
                assert(out.deep_view() =~= expand_model(raw.take(i as int + 1), kd, paths));
            }
        } else {
            let ghost before = out.deep_view();
            out.push(raw_args[i].clone());
            proof {
                assert(out.deep_view() =~= before.push(raw[i as int]));
                assert(out.deep_view() =~= expand_model(raw.take(i + 1), kd, paths));
            }
        }
    }
    proof {
        assert(raw.take(n as int) =~= raw);
    }
    out
}

/// The text of an arguments file: each argument as its own line, newline
/// terminated, with no quoting or escaping applied.
pub open spec fn args_file_contents(args: Seq<Seq<char>>) -> Seq<char>
    decreases args.len(),
{
    if args.len() == 0 {
        Seq::empty()
    } else {
        args_file_contents(args.drop_last()) + args.last() + seq!['\n']
    }
}

/// Render the trailing arguments as the text an arguments file holds.
pub fn render_args_file(args: &Vec<String>) -> (r: String)
    ensures
        r@ == args_file_contents(args.deep_view()),
{
    let ghost dv = args.deep_view();
    let mut out = String::new();
    let n = args.len();
    for i in 0..n
        invariant
            n == args.len(),
            dv == args.deep_view(),
            out@ == args_file_contents(dv.take(i as int)),
    {
        out.append(args[i].as_str());
        out.append("\n");
        proof {
            reveal_strlit("\n");
            assert("\n"@ =~= seq!['\n']);
            assert(dv.take(i + 1).drop_last() =~= dv.take(i as int));
            assert(dv.take(i + 1).last() == dv[i as int]);
            assert(dv[i as int] == args[i as int]@);
            assert(args_file_contents(dv.take(i + 1)) == args_file_contents(dv.take(i as int))
                + dv[i as int] + seq!['\n']);
            assert(out@ =~= args_file_contents(dv.take(i + 1)));
        }
    }
    proof {
        assert(dv.take(n as int) =~= dv);
    }
    out
}

/// The position of the first newline in `s`, or its length when it has none.
pub open spec fn first_newline(s: Seq<char>) -> int
    decreases s.len(),
{
    if s.len() == 0 {
        0
    } else if s[0] == '\n' {
        0
    } else {
        1 + first_newline(s.skip(1))
    }
}

/// The first newline really is one: it lies in range, names a newline, and
/// nothing before it is one.
pub proof fn lemma_first_newline_bounds(s: Seq<char>)
    ensures
        0 <= first_newline(s) <= s.len(),
        first_newline(s) < s.len() ==> s[first_newline(s)] == '\n',
        forall|k: int| 0 <= k < first_newline(s) ==> s[k] != '\n',
    decreases s.len(),
{
    if s.len() > 0 && s[0] != '\n' {
        lemma_first_newline_bounds(s.skip(1));
        assert forall|k: int| 0 <= k < first_newline(s) implies s[k] != '\n' by {
            if k > 0 {
                assert(s.skip(1)[k - 1] == s[k]);
            }
        }
    }
}

/// The lines of a text: the newline-free runs between newlines, a trailing
/// newline closing the last line.
pub open spec fn split_lines(s: Seq<char>) -> Seq<Seq<char>>
    decreases s.len(),
    via split_lines_decreases
{
    if s.len() == 0 {
        Seq::empty()
    } else if first_newline(s) >= s.len() {
        seq![s]
    } else {
        seq![s.take(first_newline(s))] + split_lines(s.skip(first_newline(s) + 1))
    }
}

#[via_fn]
proof fn split_lines_decreases(s: Seq<char>) {
    lemma_first_newline_bounds(s);
}

/// Rendering arguments to file text distributes over concatenation.
proof fn lemma_contents_concat(a: Seq<Seq<char>>, b: Seq<Seq<char>>)
    ensures
        args_file_contents(a + b) == args_file_contents(a) + args_file_contents(b),
    decreases b.len(),
{
    if b.len() == 0 {
        assert(a + b =~= a);
        assert(args_file_contents(a) + args_file_contents(b) =~= args_file_contents(a));
    } else {
        assert((a + b).drop_last() =~= a + b.drop_last());
        lemma_contents_concat(a, b.drop_last());
        assert((a + b).last() == b.last());
        assert(args_file_contents(a + b) =~= args_file_contents(a) + args_file_contents(b));
    }
}

/// In a text of the shape `x`, newline, `y`, with `x` newline-free, the first
/// newline stands right after `x`.
proof fn lemma_first_newline_after(x: Seq<char>, y: Seq<char>)
    requires
        forall|k: int| 0 <= k < x.len() ==> #[trigger] x[k] != '\n',
    ensures
        first_newline(x + seq!['\n'] + y) == x.len(),
    decreases x.len(),
{
    let s = x + seq!['\n'] + y;
    if x.len() == 0 {
        assert(s[0] == '\n');
    } else {
        assert(s[0] == x[0]);
        assert(s.skip(1) =~= x.skip(1) + seq!['\n'] + y);
        assert forall|k: int| 0 <= k < x.skip(1).len() implies #[trigger] x.skip(1)[k] != '\n' by {
            assert(x.skip(1)[k] == x[k + 1]);
        }
        lemma_first_newline_after(x.skip(1), y);
    }
}

/// Round trip: the text of an arguments file, split back into lines, is the
/// argument list itself, in order, with nothing escaped — for arguments that
/// hold no newline themselves (one that does is written as several lines).
pub proof fn lemma_args_file_round_trip(args: Seq<Seq<char>>)
    requires
        forall|i: int, k: int|
            0 <= i < args.len() && 0 <= k < args[i].len() ==> #[trigger] args[i][k] != '\n',
    ensures
        split_lines(args_file_contents(args)) == args,
    decreases args.len(),
{
    if args.len() == 0 {
        assert(split_lines(args_file_contents(args)) =~= args);
    } else {
        let head = args[0];
        let tail = args.skip(1);
        assert(args =~= seq![head] + tail);
        lemma_contents_concat(seq![head], tail);
        assert(seq![head].drop_last() =~= Seq::<Seq<char>>::empty());
        assert(seq![head].last() == head);
        assert(args_file_contents(Seq::<Seq<char>>::empty()) == Seq::<char>::empty());
        assert(args_file_contents(seq![head]) =~= head + seq!['\n']);
        let rest = args_file_contents(tail);
        let s = args_file_contents(args);
        assert(s =~= head + seq!['\n'] + rest);
        assert forall|k: int| 0 <= k < head.len() implies #[trigger] head[k] != '\n' by {
            assert(args[0][k] == head[k]);
        }
        lemma_first_newline_after(head, rest);
        assert(first_newline(s) == head.len());
        assert(first_newline(s) < s.len());
        assert(s.take(head.len() as int) =~= head);
        assert(s.skip(head.len() as int + 1) =~= rest);
        assert forall|i: int, k: int|
            0 <= i < tail.len() && 0 <= k < tail[i].len() implies #[trigger] tail[i][k]
            != '\n' by {
            assert(tail[i] == args[i + 1]);
        }
        lemma_args_file_round_trip(tail);
        assert(split_lines(s) =~= seq![head] + tail);
    }
}

/// The character a decimal digit prints as.
pub open spec fn decimal_digit(d: nat) -> char {
    if d == 0 {
        '0'
    } else if d == 1 {
        '1'
    } else if d == 2 {
        '2'
    } else if d == 3 {
        '3'
    } else if d == 4 {
        '4'
    } else if d == 5 {
        '5'
    } else if d == 6 {
        '6'
    } else if d == 7 {
        '7'
    } else if d == 8 {
        '8'
    } else {
        '9'
    }
}

/// The usual decimal rendering of a number, most significant digit first,
/// with no leading zeroes (a lone zero for zero).
pub open spec fn decimal_model(n: nat) -> Seq<char>
    decreases n,
{
    if n < 10 {
        seq![decimal_digit(n)]
    } else {
        decimal_model(n / 10) + seq![decimal_digit(n % 10)]
    }
}

/// The one-character string of a decimal digit.
fn digit_str(d: u32) -> (r: &'static str)
    requires
        d < 10,
    ensures
        r@ == seq![decimal_digit(d as nat)],
{
    proof {
        reveal_strlit("0");
        reveal_strlit("1");
        reveal_strlit("2");
        reveal_strlit("3");
        reveal_strlit("4");
        reveal_strlit("5");
        reveal_strlit("6");
        reveal_strlit("7");
        reveal_strlit("8");
        reveal_strlit("9");
    }
    if d == 0 {
        "0"
    } else if d == 1 {
        "1"
    } else if d == 2 {
        "2"
    } else if d == 3 {
        "3"
    } else if d == 4 {
        "4"
    } else if d == 5 {
        "5"
    } else if d == 6 {
        "6"
    } else if d == 7 {
        "7"
    } else if d == 8 {
        "8"
    } else {
        "9"
    }
}

/// The decimal rendering of a 32-bit number.
pub fn u32_decimal(n: u32) -> (r: String)
    ensures
        r@ == decimal_model(n as nat),
    decreases n,
{
    if n < 10 {
        let mut s = String::new();
        s.append(digit_str(n));
        s
    } else {
        proof {
            assert(n / 10 < n) by (nonlinear_arith)
                requires
                    n >= 10,
            ;
        }
        let mut s = u32_decimal(n / 10);
        s.append(digit_str(n % 10));
        s
    }
}

/// Relies on rand::random for the numeric suffix: an arbitrary
/// machine-chosen value, of which nothing is promised.
#[verifier::external_body]
fn random_u32() -> u32 {
    rand::random::<u32>()
}

/// A file name for a fresh arguments file: a fixed prefix and a drawn
/// numeric suffix. Uniqueness is best-effort, not guaranteed.
pub fn fresh_argsfile_name() -> (r: String)
    ensures
        exists|n: u32| r@ == "kd-"@ + decimal_model(n as nat),
{
    let n = random_u32();
    let mut s = String::from_str("kd-");
    let digits = u32_decimal(n);
    s.append(digits.as_str());
    proof {
        assert(s@ == "kd-"@ + decimal_model(n as nat));
    }
    s
}

} // verus!
