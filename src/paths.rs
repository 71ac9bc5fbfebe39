use vstd::prelude::*;

verus! {

/// The pieces of `p` between occurrences of `sep`, as `str::split` gives them: `n`
/// separators make `n + 1` pieces, some of them possibly empty.
pub open spec fn split_on(p: Seq<char>, sep: char) -> Seq<Seq<char>>
    decreases p.len(),
{
    if p.len() == 0 {
        seq![Seq::empty()]
    } else {
        let r = split_on(p.drop_last(), sep);
        if p.last() == sep {
            r.push(Seq::empty())
        } else {
            r.update(r.len() - 1, r.last().push(p.last()))
        }
    }
}

pub open spec fn split_slash(p: Seq<char>) -> Seq<Seq<char>> {
    split_on(p, '/')
}

/// The directory stack after one more path component: `..` leaves the current directory
/// (never above the root), an empty component changes nothing, any other enters it.
pub open spec fn enter(stack: Seq<Seq<char>>, seg: Seq<char>) -> Seq<Seq<char>> {
    if seg == seq!['.', '.'] {
        if stack.len() > 0 {
            stack.drop_last()
        } else {
            stack
        }
    } else if seg.len() == 0 {
        stack
    } else {
        stack.push(seg)
    }
}

/// The directory stack that the components `segs` lead to from the root.
pub open spec fn resolve(segs: Seq<Seq<char>>) -> Seq<Seq<char>>
    decreases segs.len(),
{
    if segs.len() == 0 {
        Seq::empty()
    } else {
        enter(resolve(segs.drop_last()), segs.last())
    }
}

/// Each component with a slash before it.
pub open spec fn slash_join(stack: Seq<Seq<char>>) -> Seq<char>
    decreases stack.len(),
{
    if stack.len() == 0 {
        Seq::empty()
    } else {
        slash_join(stack.drop_last()) + seq!['/'] + stack.last()
    }
}

/// The absolute path that `p` names once empty components and `..` are resolved.
pub open spec fn normalize_path(p: Seq<char>) -> Seq<char> {
    let stack = resolve(split_slash(p));
    if stack.len() == 0 {
        seq!['/']
    } else {
        slash_join(stack)
    }
}

proof fn lemma_split_nonempty(p: Seq<char>, sep: char)
    ensures
        split_on(p, sep).len() >= 1,
    decreases p.len(),
{
    if p.len() > 0 {
        lemma_split_nonempty(p.drop_last(), sep);
    }
}

/// Resolves `..` and empty components in `path_str` into an absolute path (`/` when nothing
/// is left).
pub fn eval_path_str(path_str: &str) -> (r: String)
    ensures
        r@ == normalize_path(path_str@),
{
    let n = path_str.unicode_len();
    let ghost p = path_str@;
    let dotdot = String::from_str("..");
    proof {
        reveal_strlit("..");
    }
    assert(dotdot@ =~= seq!['.', '.']);
    let mut stack: Vec<String> = Vec::new();
    let mut cur = String::new();
    let mut i: usize = 0;
    while i < n
        invariant
            n == p.len(),
            p == path_str@,
            i <= n,
            dotdot@ == seq!['.', '.'],
            split_slash(p.subrange(0, i as int)).len() >= 1,
            stack@.map_values(|s: String| s@) == resolve(split_slash(p.subrange(0, i as int)).drop_last()),
            cur@ == split_slash(p.subrange(0, i as int)).last(),
        decreases n - i,
    {
        let ghost pre = p.subrange(0, i as int);
        let ghost next = p.subrange(0, i + 1);
        assert(next.drop_last() =~= pre);
        assert(next.last() == p[i as int]);
        proof {
            lemma_split_nonempty(next, '/');
        }
        let c = path_str.get_char(i);
        if c == '/' {
            let ghost before = split_slash(pre);
            assert(split_slash(next).drop_last() =~= before);
            assert(before.drop_last().push(before.last()) =~= before);
            if cur == dotdot {
                stack.pop();
            } else if cur.unicode_len() == 0 {
            } else {
                let ghost st = stack@;
                stack.push(cur);
                proof {
                    st.lemma_push_map_commute(|s: String| s@, cur);
                }
            }
            cur = String::new();
        } else {
            let ghost before = split_slash(pre);
            assert(split_slash(next).drop_last() =~= before.drop_last());
            let piece = path_str.substring_char(i, i + 1);
            assert(piece@ =~= seq![c]);
            cur = cur.concat(piece);
        }
        i = i + 1;
    }
    assert(p.subrange(0, n as int) =~= p);
    let ghost segs = split_slash(p);
    assert(segs.drop_last().push(segs.last()) =~= segs);
    if cur == dotdot {
        stack.pop();
    } else if cur.unicode_len() == 0 {
    } else {
        let ghost st = stack@;
        stack.push(cur);
        proof {
            st.lemma_push_map_commute(|s: String| s@, cur);
        }
    }
    let ghost sv = stack@.map_values(|s: String| s@);
    assert(sv == resolve(segs));
    if stack.len() == 0 {
        proof {
            reveal_strlit("/");
        }
        let r = String::from_str("/");
        assert(r@ =~= seq!['/']);
        return r;
    }
    let mut out = String::new();
    let mut j: usize = 0;
    while j < stack.len()
        invariant
            j <= stack@.len(),
            sv == stack@.map_values(|s: String| s@),
            out@ == slash_join(sv.subrange(0, j as int)),
        decreases stack@.len() - j,
    {
        proof {
            reveal_strlit("/");
            assert(sv.subrange(0, j + 1).drop_last() =~= sv.subrange(0, j as int));
        }
        out = out.concat("/").concat(stack[j].as_str());
        j = j + 1;
    }
    assert(sv.subrange(0, sv.len() as int) =~= sv);
    out
}

/// The pieces of `s` between occurrences of `sep`.
fn split_words(s: &str, sep: char) -> (r: Vec<String>)
    ensures
        r@.map_values(|w: String| w@) == split_on(s@, sep),
{
    let n = s.unicode_len();
    let ghost p = s@;
    let mut done: Vec<String> = Vec::new();
    let mut cur = String::new();
    let mut i: usize = 0;
    while i < n
        invariant
            n == p.len(),
            p == s@,
            i <= n,
            split_on(p.subrange(0, i as int), sep).len() >= 1,
            done@.map_values(|w: String| w@) == split_on(p.subrange(0, i as int), sep).drop_last(),
            cur@ == split_on(p.subrange(0, i as int), sep).last(),
        decreases n - i,
    {
        let ghost pre = p.subrange(0, i as int);
        let ghost next = p.subrange(0, i + 1);
        assert(next.drop_last() =~= pre);
        proof {
            lemma_split_nonempty(next, sep);
        }
        let c = s.get_char(i);
        let ghost before = split_on(pre, sep);
        if c == sep {
            assert(split_on(next, sep).drop_last() =~= before);
            assert(before.drop_last().push(before.last()) =~= before);
            let ghost d = done@;
            done.push(cur);
            proof {
                d.lemma_push_map_commute(|w: String| w@, cur);
            }
            cur = String::new();
        } else {
            assert(split_on(next, sep).drop_last() =~= before.drop_last());
            let piece = s.substring_char(i, i + 1);
            assert(piece@ =~= seq![c]);
            cur = cur.concat(piece);
        }
        i = i + 1;
    }
    assert(p.subrange(0, n as int) =~= p);
    let ghost segs = split_on(p, sep);
    assert(segs.drop_last().push(segs.last()) =~= segs);
    let ghost d = done@;
    done.push(cur);
    proof {
        d.lemma_push_map_commute(|w: String| w@, cur);
    }
    done
}

/// What a line typed at the prompt asks of the shell itself.
#[derive(Debug)]
pub enum Special {
    Exit,
    /// Change to `path`, which is what `target` names from the current directory.
    Cd { target: String, path: String },
    /// Not a built-in: the line goes to the parser.
    NotSpecial,
}

pub enum SpecialV {
    Exit,
    Cd { target: Seq<char>, path: Seq<char> },
    NotSpecial,
}

impl Special {
    pub open spec fn view(&self) -> SpecialV {
        match self {
            Special::Exit => SpecialV::Exit,
            Special::Cd { target, path } => SpecialV::Cd { target: target@, path: path@ },
            Special::NotSpecial => SpecialV::NotSpecial,
        }
    }
}

/// The words of a prompt line: its text without the final character (the newline), split at
/// each space.
pub open spec fn line_words(line: Seq<char>) -> Seq<Seq<char>> {
    split_on(if line.len() > 0 { line.drop_last() } else { line }, ' ')
}

/// What `line` asks of the shell when the current directory is `cur_dir`: `exit`; `cd` to
/// the second word, taken from the root when it starts with `/` and from `cur_dir` otherwise;
/// or nothing of its own.
pub open spec fn special_of(line: Seq<char>, cur_dir: Seq<char>) -> SpecialV {
    let w = line_words(line);
    if w[0] == seq!['e', 'x', 'i', 't'] {
        SpecialV::Exit
    } else if w[0] == seq!['c', 'd'] {
        let target = if w.len() > 1 {
            w[1]
        } else {
            Seq::empty()
        };
        let full = if target.len() > 0 && target[0] == '/' {
            target
        } else {
            cur_dir + seq!['/'] + target
        };
        SpecialV::Cd { target, path: normalize_path(full) }
    } else {
        SpecialV::NotSpecial
    }
}

/// Recognizes the built-ins `exit` and `cd` in a prompt line.
pub fn check_special(line: &str, cur_dir: &str) -> (r: Special)
    ensures
        r@ == special_of(line@, cur_dir@),
{
    let n = line.unicode_len();
    let body = if n > 0 {
        line.substring_char(0, n - 1)
    } else {
        line
    };
    assert(n > 0 ==> line@.subrange(0, n - 1) =~= line@.drop_last());
    let words = split_words(body, ' ');
    proof {
        lemma_split_nonempty(body@, ' ');
    }
    let ghost wv = words@.map_values(|w: String| w@);
    assert(wv[0] == words@[0]@);
    let exit_word = String::from_str("exit");
    let cd_word = String::from_str("cd");
    proof {
        reveal_strlit("exit");
        reveal_strlit("cd");
        reveal_strlit("/");
    }
    assert(exit_word@ =~= seq!['e', 'x', 'i', 't']);
    assert(cd_word@ =~= seq!['c', 'd']);
    if words[0] == exit_word {
        return Special::Exit;
    }
    if words[0] != cd_word {
        return Special::NotSpecial;
    }
    let target = if words.len() > 1 {
        assert(wv[1] == words@[1]@);
        words[1].clone()
    } else {
        String::new()
    };
    let t = target.as_str();
    let rooted = t.unicode_len() > 0 && t.get_char(0) == '/';
    let full = if rooted {
        target.clone()
    } else {
        let f = String::from_str(cur_dir).concat("/").concat(t);
        assert(f@ =~= cur_dir@ + seq!['/'] + target@);
        f
    };
    let path = eval_path_str(full.as_str());
    Special::Cd { target, path }
}

} // verus!
