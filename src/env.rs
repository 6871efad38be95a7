//! Durable activation of a JDK: the shell start-up file variant and the
//! persistent environment key variant.
use vstd::prelude::*;
use crate::platform::{Platform, join_path, joined};
use crate::text::{has_infix, lower_of, lowercase, occurs_at, push_char, str_has_infix};

verus! {

broadcast use vstd::string::group_string_axioms;

/// The tag that marks lines this tool wrote.
pub open spec fn marker() -> Seq<char> {
    "# jsh managed"@
}

/// A line this tool wrote to set `JAVA_HOME`.
pub open spec fn managed_home_line(l: Seq<char>) -> bool {
    has_infix(l, "export JAVA_HOME="@) && has_infix(l, marker())
}

/// A line this tool wrote to put `$JAVA_HOME/bin` on the search path.
pub open spec fn managed_path_line(l: Seq<char>) -> bool {
    has_infix(l, "export PATH="@) && has_infix(l, "$JAVA_HOME/bin"@) && has_infix(l, marker())
}

/// The marked line that sets `JAVA_HOME` to `h`.
pub open spec fn home_line(h: Seq<char>) -> Seq<char> {
    "export JAVA_HOME=\""@ + h + "\"  # jsh managed"@
}

/// The marked line that puts `$JAVA_HOME/bin` first on the search path.
pub open spec fn path_line() -> Seq<char> {
    "export PATH=\"$JAVA_HOME/bin:$PATH\"  # jsh managed"@
}

/// The comment written above freshly appended lines.
pub open spec fn banner_line() -> Seq<char> {
    "# jsh managed - do not edit manually"@
}

/// One existing line after activating `h`: marked lines are rewritten in
/// place, every other line is kept.
pub open spec fn rewrite_line(l: Seq<char>, h: Seq<char>) -> Seq<char> {
    if managed_home_line(l) {
        home_line(h)
    } else if managed_path_line(l) {
        path_line()
    } else {
        l
    }
}

/// Some line is a marked `JAVA_HOME` line.
pub open spec fn has_home_line(ls: Seq<Seq<char>>) -> bool {
    exists|i: int| 0 <= i < ls.len() && managed_home_line(ls[i])
}

/// Some line is a marked search-path line (and not a `JAVA_HOME` one).
pub open spec fn has_path_line(ls: Seq<Seq<char>>) -> bool {
    exists|i: int| 0 <= i < ls.len() && !managed_home_line(ls[i]) && managed_path_line(ls[i])
}

/// The start-up file's lines after activating `h`: each line rewritten, then
/// the marked lines that were missing appended.
pub open spec fn rewritten_rc(ls: Seq<Seq<char>>, h: Seq<char>) -> Seq<Seq<char>> {
    let body = ls.map_values(|l: Seq<char>| rewrite_line(l, h));
    let with_home = if has_home_line(ls) {
        body
    } else {
        body + seq![Seq::<char>::empty(), banner_line(), home_line(h)]
    };
    if has_path_line(ls) {
        with_home
    } else {
        with_home.push(path_line())
    }
}

/// The start-up file that a shell named by `shell` reads, under `home`.
pub open spec fn shell_rc_path(home: Seq<char>, shell: Option<Seq<char>>) -> Seq<char> {
    match shell {
        Some(s) => if has_infix(s, "zsh"@) {
            joined(home, ".zshrc"@, Platform::Linux)
        } else {
            joined(home, ".bashrc"@, Platform::Linux)
        },
        None => joined(home, ".bashrc"@, Platform::Linux),
    }
}

/// No position of `s` at or after `j` holds `c`.
pub open spec fn char_absent_from(s: Seq<char>, c: char, j: int) -> bool
    decreases s.len() - j,
{
    j >= s.len() || (0 <= j && s[j] != c && char_absent_from(s, c, j + 1))
}

proof fn lemma_char_absent(s: Seq<char>, c: char, j: int, k: int)
    requires
        char_absent_from(s, c, j),
        0 <= j <= k < s.len(),
    ensures
        s[k] != c,
    decreases k - j,
{
    if j < k {
        lemma_char_absent(s, c, j + 1, k);
    }
}

/// `pat` cannot occur in `s` when the character `pat[k]` is absent from `s`
/// at every position from `k` on.
proof fn lemma_no_infix(s: Seq<char>, pat: Seq<char>, k: int)
    requires
        0 <= k < pat.len(),
        char_absent_from(s, pat[k], k),
    ensures
        !has_infix(s, pat),
{
    if has_infix(s, pat) {
        let i = choose|i: int| occurs_at(s, pat, i);
        assert(s.subrange(i, i + pat.len())[k] == pat[k]);
        lemma_char_absent(s, pat[k], k, i + k);
    }
}

/// How the fixed lines classify.
proof fn lemma_fixed_lines(h: Seq<char>)
    ensures
        managed_home_line(home_line(h)),
        !managed_home_line(path_line()),
        managed_path_line(path_line()),
        !managed_home_line(banner_line()),
        !managed_path_line(banner_line()),
        !managed_home_line(Seq::<char>::empty()),
        !managed_path_line(Seq::<char>::empty()),
{
    reveal_strlit("export JAVA_HOME=");
    reveal_strlit("export JAVA_HOME=\"");
    reveal_strlit("\"  # jsh managed");
    reveal_strlit("# jsh managed");
    reveal_strlit("export PATH=");
    reveal_strlit("$JAVA_HOME/bin");
    reveal_strlit("export PATH=\"$JAVA_HOME/bin:$PATH\"  # jsh managed");
    reveal_strlit("# jsh managed - do not edit manually");
    let hl = home_line(h);
    assert(hl.subrange(0, 17) =~= "export JAVA_HOME="@);
    assert(occurs_at(hl, "export JAVA_HOME="@, 0));
    assert(hl.subrange(hl.len() - 13, hl.len() as int) =~= marker());
    assert(occurs_at(hl, marker(), hl.len() - 13));
    let pl = path_line();
    reveal_with_fuel(char_absent_from, 50);
    assert(char_absent_from(pl, '=', 16));
    lemma_no_infix(pl, "export JAVA_HOME="@, 16);
    assert(pl.subrange(0, 12) =~= "export PATH="@);
    assert(occurs_at(pl, "export PATH="@, 0));
    assert(pl.subrange(13, 27) =~= "$JAVA_HOME/bin"@);
    assert(occurs_at(pl, "$JAVA_HOME/bin"@, 13));
    assert(pl.subrange(pl.len() - 13, pl.len() as int) =~= marker());
    assert(occurs_at(pl, marker(), pl.len() - 13));
    let bl = banner_line();
    assert(char_absent_from(bl, '=', 11));
    assert(char_absent_from(bl, '=', 16));
    lemma_no_infix(bl, "export JAVA_HOME="@, 16);
    lemma_no_infix(bl, "export PATH="@, 11);
    assert(char_absent_from(Seq::<char>::empty(), '=', 11));
    assert(char_absent_from(Seq::<char>::empty(), '=', 16));
    lemma_no_infix(Seq::<char>::empty(), "export JAVA_HOME="@, 16);
    lemma_no_infix(Seq::<char>::empty(), "export PATH="@, 11);
}

/// Rewriting a line for `h1` and then for `h2` is rewriting it for `h2`.
pub proof fn lemma_rewrite_line_twice(l: Seq<char>, h1: Seq<char>, h2: Seq<char>)
    ensures
        rewrite_line(rewrite_line(l, h1), h2) == rewrite_line(l, h2),
{
    lemma_fixed_lines(h1);
}

/// Activating `h1` and then `h2` leaves the start-up file exactly as
/// activating `h2` alone would: nothing of `h1` survives, and the marked lines
/// are not duplicated.
pub proof fn lemma_rc_last_activation_wins(ls: Seq<Seq<char>>, h1: Seq<char>, h2: Seq<char>)
    ensures
        rewritten_rc(rewritten_rc(ls, h1), h2) == rewritten_rc(ls, h2),
{
    lemma_fixed_lines(h1);
    lemma_fixed_lines(h2);
    let r1 = rewritten_rc(ls, h1);
    let n = ls.len() as int;
    assert forall|i: int| 0 <= i < n implies r1[i] == rewrite_line(ls[i], h1) by {}
    assert(has_home_line(r1)) by {
        if has_home_line(ls) {
            let i = choose|i: int| 0 <= i < n && managed_home_line(ls[i]);
            assert(managed_home_line(r1[i]));
        } else {
            assert(r1[n + 2] == home_line(h1));
            assert(managed_home_line(r1[n + 2]));
        }
    }
    assert(has_path_line(r1)) by {
        if has_path_line(ls) {
            let i = choose|i: int| 0 <= i < n && !managed_home_line(ls[i]) && managed_path_line(ls[i]);
            assert(r1[i] == path_line());
            assert(!managed_home_line(r1[i]) && managed_path_line(r1[i]));
        } else {
            assert(r1[r1.len() - 1] == path_line());
            assert(!managed_home_line(r1[r1.len() - 1]) && managed_path_line(r1[r1.len() - 1]));
        }
    }
    let r2 = rewritten_rc(r1, h2);
    let direct = rewritten_rc(ls, h2);
    assert(r2 == r1.map_values(|l: Seq<char>| rewrite_line(l, h2)));
    assert(r2.len() == direct.len());
    assert forall|i: int| 0 <= i < r2.len() implies r2[i] == direct[i] by {
        if i < n {
            lemma_rewrite_line_twice(ls[i], h1, h2);
        }
    }
    assert(r2 =~= direct);
}

/// After activating `h1` and then `h2`, no line of the start-up file holds
/// `h1`, and every marked `JAVA_HOME` line names `h2`. This needs `h1` to
/// occur in none of the unmarked lines and in none of the lines written for
/// `h2`.
pub proof fn lemma_rc_no_trace_of_previous(ls: Seq<Seq<char>>, h1: Seq<char>, h2: Seq<char>)
    requires
        h1.len() > 0,
        forall|i: int|
            0 <= i < ls.len() && !managed_home_line(#[trigger] ls[i]) && !managed_path_line(ls[i])
                ==> !has_infix(ls[i], h1),
        !has_infix(home_line(h2), h1),
        !has_infix(path_line(), h1),
        !has_infix(banner_line(), h1),
    ensures
        forall|i: int|
            0 <= i < rewritten_rc(rewritten_rc(ls, h1), h2).len() ==> !has_infix(
                #[trigger] rewritten_rc(rewritten_rc(ls, h1), h2)[i],
                h1,
            ),
        forall|i: int|
            0 <= i < rewritten_rc(rewritten_rc(ls, h1), h2).len() && managed_home_line(
                #[trigger] rewritten_rc(rewritten_rc(ls, h1), h2)[i],
            ) ==> rewritten_rc(rewritten_rc(ls, h1), h2)[i] == home_line(h2),
{
    lemma_rc_last_activation_wins(ls, h1, h2);
    lemma_fixed_lines(h2);
    let r = rewritten_rc(ls, h2);
    let n = ls.len() as int;
    let body = ls.map_values(|l: Seq<char>| rewrite_line(l, h2));
    let tail = seq![Seq::<char>::empty(), banner_line(), home_line(h2)];
    let with_home = if has_home_line(ls) {
        body
    } else {
        body + tail
    };
    assert(!has_infix(Seq::<char>::empty(), h1)) by {
        if has_infix(Seq::<char>::empty(), h1) {
            let k = choose|k: int| occurs_at(Seq::<char>::empty(), h1, k);
        }
    }
    assert forall|i: int| 0 <= i < r.len() implies !has_infix(#[trigger] r[i], h1) && (managed_home_line(
        r[i],
    ) ==> r[i] == home_line(h2)) by {
        if i < n {
            assert(r[i] == rewrite_line(ls[i], h2));
        } else if i < with_home.len() {
            assert(r[i] == tail[i - n]);
        } else {
            assert(r[i] == path_line());
        }
    }
}

/// A second activation of the same JDK leaves the start-up file unchanged.
pub proof fn lemma_rc_idempotent(ls: Seq<Seq<char>>, h: Seq<char>)
    ensures
        rewritten_rc(rewritten_rc(ls, h), h) == rewritten_rc(ls, h),
{
    lemma_rc_last_activation_wins(ls, h, h);
}

/// The number of marked `JAVA_HOME` lines.
pub open spec fn home_line_count(ls: Seq<Seq<char>>) -> nat
    decreases ls.len(),
{
    if ls.len() == 0 {
        0
    } else {
        home_line_count(ls.drop_last()) + if managed_home_line(ls.last()) {
            1nat
        } else {
            0nat
        }
    }
}

/// The number of marked search-path lines (that are not `JAVA_HOME` ones).
pub open spec fn path_line_count(ls: Seq<Seq<char>>) -> nat
    decreases ls.len(),
{
    if ls.len() == 0 {
        0
    } else {
        path_line_count(ls.drop_last()) + if !managed_home_line(ls.last()) && managed_path_line(
            ls.last(),
        ) {
            1nat
        } else {
            0nat
        }
    }
}

proof fn lemma_counts_concat(a: Seq<Seq<char>>, b: Seq<Seq<char>>)
    ensures
        home_line_count(a + b) == home_line_count(a) + home_line_count(b),
        path_line_count(a + b) == path_line_count(a) + path_line_count(b),
    decreases b.len(),
{
    if b.len() > 0 {
        lemma_counts_concat(a, b.drop_last());
        assert((a + b).drop_last() =~= a + b.drop_last());
    }
}

proof fn lemma_counts_rewritten_body(ls: Seq<Seq<char>>, h: Seq<char>)
    ensures
        home_line_count(ls.map_values(|l: Seq<char>| rewrite_line(l, h))) == home_line_count(ls),
        path_line_count(ls.map_values(|l: Seq<char>| rewrite_line(l, h))) == path_line_count(ls),
    decreases ls.len(),
{
    lemma_fixed_lines(h);
    if ls.len() > 0 {
        lemma_counts_rewritten_body(ls.drop_last(), h);
        assert(ls.map_values(|l: Seq<char>| rewrite_line(l, h)).drop_last() =~= ls.drop_last().map_values(
            |l: Seq<char>| rewrite_line(l, h),
        ));
    }
}

proof fn lemma_counts_positive(ls: Seq<Seq<char>>)
    ensures
        has_home_line(ls) <==> home_line_count(ls) > 0,
        has_path_line(ls) <==> path_line_count(ls) > 0,
    decreases ls.len(),
{
    if ls.len() > 0 {
        let d = ls.drop_last();
        lemma_counts_positive(d);
        if has_home_line(d) {
            let i = choose|i: int| 0 <= i < d.len() && managed_home_line(d[i]);
            assert(managed_home_line(ls[i]));
        }
        if has_home_line(ls) && !managed_home_line(ls.last()) {
            let i = choose|i: int| 0 <= i < ls.len() && managed_home_line(ls[i]);
            assert(managed_home_line(d[i]));
        }
        if managed_home_line(ls.last()) {
            assert(managed_home_line(ls[ls.len() - 1]));
        }
        if has_path_line(d) {
            let i = choose|i: int| 0 <= i < d.len() && !managed_home_line(d[i]) && managed_path_line(d[i]);
            assert(!managed_home_line(ls[i]) && managed_path_line(ls[i]));
        }
        if has_path_line(ls) && !(!managed_home_line(ls.last()) && managed_path_line(ls.last())) {
            let i = choose|i: int| 0 <= i < ls.len() && !managed_home_line(ls[i]) && managed_path_line(ls[i]);
            assert(!managed_home_line(d[i]) && managed_path_line(d[i]));
        }
        if !managed_home_line(ls.last()) && managed_path_line(ls.last()) {
            assert(!managed_home_line(ls[ls.len() - 1]) && managed_path_line(ls[ls.len() - 1]));
        }
    }
}

/// Activating `h` in a start-up file with at most one marked line of each
/// kind leaves exactly one of each, and a second activation with the same
/// JDK leaves the file as it was: marked lines never accumulate.
pub proof fn lemma_rc_single_marked_lines(ls: Seq<Seq<char>>, h: Seq<char>)
    requires
        home_line_count(ls) <= 1,
        path_line_count(ls) <= 1,
    ensures
        rewritten_rc(rewritten_rc(ls, h), h) == rewritten_rc(ls, h),
        home_line_count(rewritten_rc(ls, h)) == 1,
        path_line_count(rewritten_rc(ls, h)) == 1,
{
    lemma_rc_idempotent(ls, h);
    lemma_fixed_lines(h);
    lemma_counts_positive(ls);
    assert(home_line_count(Seq::<Seq<char>>::empty()) == 0);
    assert(path_line_count(Seq::<Seq<char>>::empty()) == 0);
    let body = ls.map_values(|l: Seq<char>| rewrite_line(l, h));
    lemma_counts_rewritten_body(ls, h);
    let tail = seq![Seq::<char>::empty(), banner_line(), home_line(h)];
    let with_home = if has_home_line(ls) {
        body
    } else {
        body + tail
    };
    if !has_home_line(ls) {
        lemma_counts_concat(body, tail);
        let t2 = seq![Seq::<char>::empty(), banner_line()];
        let t1 = seq![Seq::<char>::empty()];
        assert(tail.drop_last() =~= t2);
        assert(t2.drop_last() =~= t1);
        assert(t1.drop_last() =~= Seq::<Seq<char>>::empty());
        assert(t1.last() == Seq::<char>::empty());
        assert(t2.last() == banner_line());
        assert(tail.last() == home_line(h));
        assert(home_line_count(t1) == 0 && path_line_count(t1) == 0);
        assert(home_line_count(t2) == 0 && path_line_count(t2) == 0);
        assert(home_line_count(tail) == 1);
        assert(path_line_count(tail) == 0);
    }
    if !has_path_line(ls) {
        let one = seq![path_line()];
        lemma_counts_concat(with_home, one);
        assert(one.drop_last() =~= Seq::<Seq<char>>::empty());
        assert(one.last() == path_line());
        assert(home_line_count(one) == 0 && path_line_count(one) == 1);
        assert(with_home.push(path_line()) =~= with_home + one);
    }
}

/// Activation through the user's shell start-up file.
#[derive(Debug)]
pub struct UnixEnvUpdater;

impl UnixEnvUpdater {
    pub fn new() -> (r: UnixEnvUpdater) {
        UnixEnvUpdater
    }

    /// The start-up file to rewrite: `.zshrc` when the `SHELL` value names
    /// zsh, `.bashrc` otherwise.
    pub fn get_shell_rc_path(home: &str, shell: Option<&str>) -> (r: String)
        ensures
            r@ == shell_rc_path(
                home@,
                match shell {
                    Some(s) => Some(s@),
                    None => None,
                },
            ),
    {
        match shell {
            Some(s) => {
                if str_has_infix(s, "zsh") {
                    join_path(home, ".zshrc", Platform::Linux)
                } else {
                    join_path(home, ".bashrc", Platform::Linux)
                }
            },
            None => join_path(home, ".bashrc", Platform::Linux),
        }
    }

    /// The marked line that sets `JAVA_HOME` to `java_home`.
    fn java_home_line(java_home: &str) -> (r: String)
        ensures
            r@ == home_line(java_home@),
    {
        let mut l = "export JAVA_HOME=\"".to_owned();
        l.append(java_home);
        l.append("\"  # jsh managed");
        l
    }

    /// The lines of the start-up file after activating `java_home`. Marked
    /// lines are replaced where they stand; the ones missing are appended.
    pub fn update_shell_rc(lines: &Vec<String>, java_home: &str) -> (r: Vec<String>)
        ensures
            r.deep_view() == rewritten_rc(lines.deep_view(), java_home@),
    {
        let ghost ls = lines.deep_view();
        let ghost h = java_home@;
        let mut out: Vec<String> = Vec::new();
        let mut found_java_home = false;
        let mut found_path = false;
        let mut i: usize = 0;
        while i < lines.len()
            invariant
                ls == lines.deep_view(),
                h == java_home@,
                i <= ls.len(),
                out.deep_view() == ls.take(i as int).map_values(|l: Seq<char>| rewrite_line(l, h)),
                found_java_home == has_home_line(ls.take(i as int)),
                found_path == has_path_line(ls.take(i as int)),
            decreases ls.len() - i,
        {
            let line = &lines[i];
            let ghost t = ls.take(i + 1);
            assert(t.drop_last() =~= ls.take(i as int));
            assert(t.last() == line@);
            let is_home = str_has_infix(line.as_str(), "export JAVA_HOME=") && str_has_infix(
                line.as_str(),
                "# jsh managed",
            );
            let is_path = !is_home && str_has_infix(line.as_str(), "export PATH=")
                && str_has_infix(line.as_str(), "$JAVA_HOME/bin") && str_has_infix(
                line.as_str(),
                "# jsh managed",
            );
            let ghost before = out.deep_view();
            if is_home {
                out.push(Self::java_home_line(java_home));
                found_java_home = true;
            } else if is_path {
                out.push("export PATH=\"$JAVA_HOME/bin:$PATH\"  # jsh managed".to_owned());
                found_path = true;
            } else {
                out.push(line.clone());
            }
            assert(out.deep_view() =~= before.push(rewrite_line(line@, h)));
            assert(t.map_values(|l: Seq<char>| rewrite_line(l, h)) =~= ls.take(i as int).map_values(
                |l: Seq<char>| rewrite_line(l, h),
            ).push(rewrite_line(line@, h)));
            assert(has_home_line(t) == (has_home_line(ls.take(i as int)) || managed_home_line(line@))) by {
                if managed_home_line(line@) {
                    assert(managed_home_line(t[i as int]));
                }
                if has_home_line(t) && !managed_home_line(line@) {
                    let k = choose|k: int| 0 <= k < t.len() && managed_home_line(t[k]);
                    assert(ls.take(i as int)[k] == t[k]);
                }
            }
            assert(has_path_line(t) == (has_path_line(ls.take(i as int)) || (!managed_home_line(
                line@,
            ) && managed_path_line(line@)))) by {
                if !managed_home_line(line@) && managed_path_line(line@) {
                    assert(!managed_home_line(t[i as int]) && managed_path_line(t[i as int]));
                }
                if has_path_line(t) && !(!managed_home_line(line@) && managed_path_line(line@)) {
                    let k = choose|k: int|
                        0 <= k < t.len() && !managed_home_line(t[k]) && managed_path_line(t[k]);
                    assert(ls.take(i as int)[k] == t[k]);
                }
            }
            i = i + 1;
        }
        assert(ls.take(ls.len() as int) =~= ls);
        if !found_java_home {
            let ghost before = out.deep_view();
            out.push(String::new());
            out.push("# jsh managed - do not edit manually".to_owned());
            out.push(Self::java_home_line(java_home));
            assert(out.deep_view() =~= before + seq![Seq::<char>::empty(), banner_line(), home_line(h)]);
        }
        if !found_path {
            let ghost before = out.deep_view();
            out.push("export PATH=\"$JAVA_HOME/bin:$PATH\"  # jsh managed".to_owned());
            assert(out.deep_view() =~= before.push(path_line()));
        }
        out
    }
}


/// Reading a `;`-separated list left to right: the non-empty entries ended
/// so far, and the entry not yet ended.
pub open spec fn entry_state(s: Seq<char>) -> (Seq<Seq<char>>, Seq<char>)
    decreases s.len(),
{
    if s.len() == 0 {
        (Seq::empty(), Seq::empty())
    } else {
        let (done, cur) = entry_state(s.drop_last());
        if s.last() == ';' {
            (
                if cur.len() > 0 {
                    done.push(cur)
                } else {
                    done
                },
                Seq::empty(),
            )
        } else {
            (done, cur.push(s.last()))
        }
    }
}

/// The non-empty entries of a `;`-separated search path, in order.
pub open spec fn path_entries(s: Seq<char>) -> Seq<Seq<char>> {
    let (done, cur) = entry_state(s);
    if cur.len() > 0 {
        done.push(cur)
    } else {
        done
    }
}

/// Whether a lowercased search-path entry points into a JDK: it contains the
/// lowercased JDK home, or a `\bin` together with `\jdk` or `\jre`.
pub open spec fn java_entry(entry_lower: Seq<char>, home_lower: Seq<char>) -> bool {
    has_infix(entry_lower, home_lower) || (has_infix(entry_lower, "\\bin"@) && (has_infix(
        entry_lower,
        "\\jdk"@,
    ) || has_infix(entry_lower, "\\jre"@)))
}

/// The entries that do not point into a JDK, in order.
pub open spec fn kept_entries(es: Seq<Seq<char>>, home_lower: Seq<char>) -> Seq<Seq<char>>
    decreases es.len(),
{
    if es.len() == 0 {
        es
    } else {
        let k = kept_entries(es.drop_last(), home_lower);
        if java_entry(lower_of(es.last()), home_lower) {
            k
        } else {
            k.push(es.last())
        }
    }
}

/// `parts` written one after another with `sep` between them.
pub open spec fn joined_with(parts: Seq<Seq<char>>, sep: char) -> Seq<char>
    decreases parts.len(),
{
    if parts.len() == 0 {
        Seq::empty()
    } else if parts.len() == 1 {
        parts[0]
    } else {
        joined_with(parts.drop_last(), sep).push(sep) + parts.last()
    }
}

/// The search-path value after activating the JDK at `home`: its `bin`
/// first, then the old non-empty entries that do not point into a JDK.
pub open spec fn rewritten_path_value(value: Seq<char>, home: Seq<char>) -> Seq<char> {
    joined_with(
        seq![joined(home, "bin"@, Platform::Windows)] + kept_entries(path_entries(value), lower_of(home)),
        ';',
    )
}

/// `s` holds no `;`.
pub open spec fn no_separator(s: Seq<char>) -> bool {
    forall|k: int| 0 <= k < s.len() ==> s[k] != ';'
}

proof fn lemma_entry_state_append(s: Seq<char>, p: Seq<char>)
    requires
        no_separator(p),
    ensures
        entry_state(s + p) == (entry_state(s).0, entry_state(s).1 + p),
    decreases p.len(),
{
    if p.len() == 0 {
        assert(s + p =~= s);
        assert(entry_state(s).1 + p =~= entry_state(s).1);
    } else {
        let d = p.drop_last();
        lemma_entry_state_append(s, d);
        assert((s + p).drop_last() =~= s + d);
        assert((s + p).last() == p[p.len() - 1]);
        assert((entry_state(s).1 + d).push(p.last()) =~= entry_state(s).1 + p);
    }
}

/// The entries written by [`joined_with`] are read back unchanged.
proof fn lemma_entries_of_joined(parts: Seq<Seq<char>>)
    requires
        parts.len() > 0,
        forall|i: int| 0 <= i < parts.len() ==> parts[i].len() > 0 && no_separator(#[trigger] parts[i]),
    ensures
        entry_state(joined_with(parts, ';')) == (parts.drop_last(), parts.last()),
        path_entries(joined_with(parts, ';')) == parts,
    decreases parts.len(),
{
    let last = parts.last();
    if parts.len() == 1 {
        lemma_entry_state_append(Seq::empty(), last);
        assert(Seq::<char>::empty() + last =~= last);
        assert(Seq::<char>::empty() + last =~= parts[0]);
    } else {
        let pd = parts.drop_last();
        assert forall|i: int| 0 <= i < pd.len() implies pd[i].len() > 0 && no_separator(#[trigger] pd[i]) by {
            assert(pd[i] == parts[i]);
        }
        lemma_entries_of_joined(pd);
        let j = joined_with(pd, ';');
        let js = j.push(';');
        assert(js.drop_last() =~= j);
        assert(pd.drop_last().push(pd.last()) =~= pd);
        assert(entry_state(js) == (pd, Seq::<char>::empty()));
        lemma_entry_state_append(js, last);
        assert(Seq::<char>::empty() + last =~= last);
        assert(joined_with(parts, ';') == js + last);
    }
    assert(parts.drop_last().push(parts.last()) =~= parts);
}

/// The entries read from any value are non-empty and hold no `;`.
proof fn lemma_entry_state_shape(s: Seq<char>)
    ensures
        no_separator(entry_state(s).1),
        forall|i: int|
            0 <= i < entry_state(s).0.len() ==> (#[trigger] entry_state(s).0[i]).len() > 0
                && no_separator(entry_state(s).0[i]),
    decreases s.len(),
{
    if s.len() > 0 {
        lemma_entry_state_shape(s.drop_last());
    }
}

/// What [`kept_entries`] keeps comes from its input and does not point
/// into a JDK.
proof fn lemma_kept_entries(es: Seq<Seq<char>>, hl: Seq<char>)
    ensures
        forall|i: int|
            0 <= i < kept_entries(es, hl).len() ==> exists|j: int|
                0 <= j < es.len() && es[j] == #[trigger] kept_entries(es, hl)[i],
        forall|i: int|
            0 <= i < kept_entries(es, hl).len() ==> !java_entry(
                lower_of(#[trigger] kept_entries(es, hl)[i]),
                hl,
            ),
    decreases es.len(),
{
    if es.len() > 0 {
        let d = es.drop_last();
        lemma_kept_entries(d, hl);
        let k = kept_entries(es, hl);
        let kd = kept_entries(d, hl);
        assert forall|i: int| 0 <= i < k.len() implies exists|j: int|
            0 <= j < es.len() && es[j] == #[trigger] k[i] by {
            if i < kd.len() {
                let j = choose|j: int| 0 <= j < d.len() && d[j] == kd[i];
                assert(es[j] == k[i]);
            } else {
                assert(es[es.len() - 1] == k[i]);
            }
        }
    }
}

/// The entries of a rewritten value: the new `bin` first, then the kept
/// old entries.
proof fn lemma_rewritten_entries(v: Seq<char>, h: Seq<char>)
    requires
        no_separator(h),
    ensures
        path_entries(rewritten_path_value(v, h)) == seq![joined(h, "bin"@, Platform::Windows)]
            + kept_entries(path_entries(v), lower_of(h)),
{
    reveal_strlit("bin");
    let bin = joined(h, "bin"@, Platform::Windows);
    let es = path_entries(v);
    let kept = kept_entries(es, lower_of(h));
    let parts = seq![bin] + kept;
    lemma_entry_state_shape(v);
    lemma_kept_entries(es, lower_of(h));
    assert forall|i: int| 0 <= i < es.len() implies es[i].len() > 0 && no_separator(#[trigger] es[i]) by {
        let (done, cur) = entry_state(v);
        if i < done.len() {
            assert(es[i] == done[i]);
        }
    }
    assert(no_separator(bin));
    assert forall|i: int| 0 <= i < parts.len() implies parts[i].len() > 0 && no_separator(#[trigger] parts[i]) by {
        if i > 0 {
            assert(parts[i] == kept[i - 1]);
            let j = choose|j: int| 0 <= j < es.len() && es[j] == kept[i - 1];
        }
    }
    lemma_entries_of_joined(parts);
}

/// Activating `h1` and then `h2` through the search-path value leaves no
/// entry that points into `h1`'s JDK, provided `h1`'s `bin` entry is itself
/// recognised as a JDK entry: every entry after the new `bin` neither
/// contains `h1` (case-insensitively) nor looks like a JDK `bin`.
pub proof fn lemma_path_last_activation_wins(v: Seq<char>, h1: Seq<char>, h2: Seq<char>)
    requires
        no_separator(h1),
        no_separator(h2),
        java_entry(lower_of(joined(h1, "bin"@, Platform::Windows)), lower_of(h2)),
    ensures
        ({
            let es = path_entries(rewritten_path_value(rewritten_path_value(v, h1), h2));
            &&& es.len() >= 1
            &&& es[0] == joined(h2, "bin"@, Platform::Windows)
            &&& forall|i: int| 1 <= i < es.len() ==> !java_entry(lower_of(#[trigger] es[i]), lower_of(h1))
        }),
{
    let v1 = rewritten_path_value(v, h1);
    lemma_rewritten_entries(v, h1);
    lemma_rewritten_entries(v1, h2);
    let e1 = path_entries(v1);
    let k1 = kept_entries(path_entries(v), lower_of(h1));
    let k2 = kept_entries(e1, lower_of(h2));
    lemma_kept_entries(path_entries(v), lower_of(h1));
    lemma_kept_entries(e1, lower_of(h2));
    let es = path_entries(rewritten_path_value(v1, h2));
    assert forall|i: int| 1 <= i < es.len() implies !java_entry(lower_of(#[trigger] es[i]), lower_of(h1)) by {
        assert(es[i] == k2[i - 1]);
        let j = choose|j: int| 0 <= j < e1.len() && e1[j] == k2[i - 1];
        if j == 0 {
            assert(!java_entry(lower_of(k2[i - 1]), lower_of(h2)));
        } else {
            assert(e1[j] == k1[j - 1]);
        }
    }
}

/// Activation through the machine-wide persistent environment key.
#[derive(Debug)]
pub struct WindowsEnvUpdater;

impl WindowsEnvUpdater {
    pub fn new() -> (r: WindowsEnvUpdater) {
        WindowsEnvUpdater
    }

    /// Whether a lowercased search-path entry points into a JDK, given the
    /// lowercased JDK home.
    pub fn is_java_entry(entry_lower: &str, home_lower: &str) -> (r: bool)
        ensures
            r == java_entry(entry_lower@, home_lower@),
    {
        str_has_infix(entry_lower, home_lower) || (str_has_infix(entry_lower, "\\bin") && (
        str_has_infix(entry_lower, "\\jdk") || str_has_infix(entry_lower, "\\jre")))
    }

    /// The non-empty `;`-separated entries of a search-path value.
    fn split_entries(value: &str) -> (r: Vec<String>)
        ensures
            r.deep_view() == path_entries(value@),
    {
        let chars = crate::text::chars_of(value);
        let n = chars.len();
        let mut done: Vec<String> = Vec::new();
        let mut cur = String::new();
        let mut i: usize = 0;
        assert(chars@.take(0) =~= Seq::<char>::empty());
        while i < n
            invariant
                n == chars@.len(),
                chars@ == value@,
                i <= n,
                entry_state(chars@.take(i as int)) == (done.deep_view(), cur@),
            decreases n - i,
        {
            let c = chars[i];
            assert(chars@.take(i + 1).drop_last() =~= chars@.take(i as int));
            if c == ';' {
                if !cur.as_str().is_empty() {
                    let ghost before = done.deep_view();
                    done.push(cur);
                    assert(done.deep_view() =~= before.push(entry_state(chars@.take(i as int)).1));
                }
                cur = String::new();
            } else {
                push_char(&mut cur, c);
            }
            i = i + 1;
        }
        assert(chars@.take(n as int) =~= chars@);
        if !cur.as_str().is_empty() {
            let ghost before = done.deep_view();
            done.push(cur);
            assert(done.deep_view() =~= before.push(entry_state(chars@).1));
        }
        done
    }

    /// `parts` joined by `;`.
    fn join_entries(parts: &Vec<String>) -> (r: String)
        requires
            parts@.len() > 0,
        ensures
            r@ == joined_with(parts.deep_view(), ';'),
    {
        let ghost ps = parts.deep_view();
        let mut out = parts[0].clone();
        let mut i: usize = 1;
        assert(ps.take(1).drop_last().len() == 0);
        while i < parts.len()
            invariant
                ps == parts.deep_view(),
                1 <= i <= ps.len(),
                out@ == joined_with(ps.take(i as int), ';'),
            decreases ps.len() - i,
        {
            assert(ps.take(i + 1).drop_last() =~= ps.take(i as int));
            push_char(&mut out, ';');
            out.append(parts[i].as_str());
            i = i + 1;
        }
        assert(ps.take(ps.len() as int) =~= ps);
        out
    }

    /// The search-path value after activating the JDK at `java_home`: entries
    /// that point into a JDK are removed and its `bin` directory put first.
    pub fn update_path_value(path_value: &str, java_home: &str) -> (r: String)
        ensures
            r@ == rewritten_path_value(path_value@, java_home@),
    {
        let entries = Self::split_entries(path_value);
        let ghost es = entries.deep_view();
        let home_lower = lowercase(java_home);
        let mut kept: Vec<String> = Vec::new();
        kept.push(join_path(java_home, "bin", Platform::Windows));
        let ghost head = seq![joined(java_home@, "bin"@, Platform::Windows)];
        assert(kept.deep_view() =~= head + kept_entries(es.take(0), home_lower@));
        let mut i: usize = 0;
        while i < entries.len()
            invariant
                es == entries.deep_view(),
                i <= es.len(),
                home_lower@ == lower_of(java_home@),
                head == seq![joined(java_home@, "bin"@, Platform::Windows)],
                kept.deep_view() == head + kept_entries(es.take(i as int), home_lower@),
            decreases es.len() - i,
        {
            assert(es.take(i + 1).drop_last() =~= es.take(i as int));
            let e = &entries[i];
            let e_lower = lowercase(e.as_str());
            if !Self::is_java_entry(e_lower.as_str(), home_lower.as_str()) {
                let ghost before = kept.deep_view();
                kept.push(e.clone());
                assert(kept.deep_view() =~= before.push(e@));
            }
            i = i + 1;
        }
        assert(es.take(es.len() as int) =~= es);
        Self::join_entries(&kept)
    }
}


/// The activation mechanism of each platform.
#[derive(Debug)]
pub enum PlatformEnvUpdater {
    /// The persistent environment key (Windows).
    Windows(WindowsEnvUpdater),
    /// The shell start-up file (macOS and Linux).
    Unix(UnixEnvUpdater),
}

/// The activation mechanism for platform `p`.
pub fn get_env_updater(p: Platform) -> (r: PlatformEnvUpdater)
    ensures
        r is Windows <==> p is Windows,
{
    if p == Platform::Windows {
        PlatformEnvUpdater::Windows(WindowsEnvUpdater::new())
    } else {
        PlatformEnvUpdater::Unix(UnixEnvUpdater::new())
    }
}

} // verus!
