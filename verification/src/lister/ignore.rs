//! `.gitignore` rules of the stand-alone lister: every parent directory's
//! file applies, later rules win, `!` negates, `*` and `?` are wildcards.
use vstd::prelude::*;
use crate::collect::{next_line, path_parent, slash_fn, strip_back, strip_ends, strip_front, text_lines, trimmed, white_space_fn};
use crate::text::{chars_of, has_char, split_pieces, views};

verus! {

// ---------------------------------------------------------------------------
// Wildcards
// ---------------------------------------------------------------------------

/// Whether `p` matches all of `t`: `*` stands for any run of bytes, `?`
/// for one byte, every other byte for itself.
pub open spec fn glob(p: Seq<u8>, t: Seq<u8>) -> bool
    decreases p.len(), t.len(),
{
    if p.len() == 0 {
        t.len() == 0
    } else if p.last() == 42u8 {
        glob(p.drop_last(), t) || (t.len() > 0 && glob(p, t.drop_last()))
    } else if t.len() == 0 {
        false
    } else if p.last() == 63u8 {
        glob(p.drop_last(), t.drop_last())
    } else {
        p.last() == t.last() && glob(p.drop_last(), t.drop_last())
    }
}

/// The UTF-8 bytes of a text.
pub open spec fn utf8(s: Seq<char>) -> Seq<u8> {
    vstd::utf8::encode_utf8(s)
}

/// `*` and `?` wildcards matched over the UTF-8 bytes of both texts.
pub fn wildcard_match(pattern: &str, text: &str) -> (b: bool)
    ensures
        b == glob(utf8(pattern@), utf8(text@)),
{
    let p = pattern.as_bytes();
    let t = text.as_bytes();
    let ghost ps = p@;
    let ghost ts = t@;
    // row[j] == glob(p[..i], t[..j])
    let mut row: Vec<bool> = Vec::new();
    row.push(true);
    assert(ps.take(0).len() == 0);
    for j in 0..t.len()
        invariant
            ps == p@,
            ts == t@,
            ps.take(0).len() == 0,
            row@.len() == j + 1,
            forall|k: int| 0 <= k <= j ==> row@[k] == glob(ps.take(0), #[trigger] ts.take(k)),
    {
        assert(ts.take(j + 1).len() == j + 1);
        row.push(false);
    }
    for i in 0..p.len()
        invariant
            ps == p@,
            ts == t@,
            row@.len() == t.len() + 1,
            forall|k: int| 0 <= k <= t.len() ==> row@[k] == glob(ps.take(i as int), #[trigger] ts.take(k)),
    {
        let c = p[i];
        let mut next: Vec<bool> = Vec::new();
        proof {
            assert(ps.take(i + 1).drop_last() =~= ps.take(i as int));
            assert(ps.take(i + 1).last() == c);
            assert(ts.take(0).len() == 0);
        }
        next.push(c == 42u8 && row[0]);
        for j in 0..t.len()
            invariant
                ps == p@,
                ts == t@,
                i < p.len(),
                c == ps[i as int],
                row@.len() == t.len() + 1,
                forall|k: int| 0 <= k <= t.len() ==> row@[k] == glob(ps.take(i as int), #[trigger] ts.take(k)),
                next@.len() == j + 1,
                forall|k: int| 0 <= k <= j ==> next@[k] == glob(ps.take(i + 1), #[trigger] ts.take(k)),
        {
            let v = if c == 42u8 {
                row[j + 1] || next[j]
            } else if c == 63u8 {
                row[j]
            } else {
                c == t[j] && row[j]
            };
            proof {
                let pp = ps.take(i + 1);
                let tt = ts.take(j + 1);
                assert(pp.drop_last() =~= ps.take(i as int));
                assert(pp.last() == c);
                assert(tt.drop_last() =~= ts.take(j as int));
                assert(tt.last() == t@[j as int]);
                assert(v == glob(pp, tt));
            }
            next.push(v);
        }
        row = next;
    }
    proof {
        assert(ps.take(p.len() as int) =~= ps);
        assert(ts.take(t.len() as int) =~= ts);
    }
    row[t.len()]
}

// ---------------------------------------------------------------------------
// Rules
// ---------------------------------------------------------------------------

/// One ignore rule: the pattern (no slashes at its ends), the directory
/// whose ignore file holds it, and its flags.
#[derive(Debug)]
pub struct IgnoreRule {
    pub base: String,
    pub pattern: String,
    pub negated: bool,
    pub dir_only: bool,
    pub has_slash: bool,
}

/// A rule as plain values: base, pattern, negated, directory-only, has a
/// slash.
pub open spec fn rule_view(r: IgnoreRule) -> (Seq<char>, Seq<char>, bool, bool, bool) {
    (r.base@, r.pattern@, r.negated, r.dir_only, r.has_slash)
}

pub open spec fn rule_views(v: Seq<IgnoreRule>) -> Seq<(Seq<char>, Seq<char>, bool, bool, bool)> {
    v.map_values(|r: IgnoreRule| rule_view(r))
}

/// The rule for a pattern: none when it is empty or only slashes; a
/// trailing `/` makes it directory-only; slashes at its ends are dropped.
pub open spec fn rule_of(base: Seq<char>, pattern: Seq<char>, negated: bool) -> Option<
    (Seq<char>, Seq<char>, bool, bool, bool),
> {
    if pattern.len() == 0 {
        None
    } else {
        let text = strip_front(strip_back(pattern, slash_fn()), slash_fn());
        if text.len() == 0 {
            None
        } else {
            Some((base, text, negated, pattern.last() == '/', has_char(text, '/')))
        }
    }
}

/// The rule a line of an ignore file gives: none for blank lines and
/// comments; a leading `!` (and the space after it) negates.
pub open spec fn line_rule(base: Seq<char>, line: Seq<char>) -> Option<
    (Seq<char>, Seq<char>, bool, bool, bool),
> {
    let t = trimmed(line);
    if t.len() == 0 || t[0] == '#' {
        None
    } else if t[0] == '!' {
        rule_of(base, trimmed(t.drop_first()), true)
    } else {
        rule_of(base, t, false)
    }
}

/// The rules of the lines, in order.
pub open spec fn rules_of_lines(base: Seq<char>, lines: Seq<Seq<char>>) -> Seq<
    (Seq<char>, Seq<char>, bool, bool, bool),
>
    decreases lines.len(),
{
    if lines.len() == 0 {
        Seq::empty()
    } else {
        match line_rule(base, lines[0]) {
            Some(r) => seq![r] + rules_of_lines(base, lines.drop_first()),
            None => rules_of_lines(base, lines.drop_first()),
        }
    }
}

fn strip_slashes_both(v: &Vec<char>) -> (r: Vec<char>)
    ensures
        r@ == strip_front(strip_back(v@, slash_fn()), slash_fn()),
{
    let mut end = v.len();
    assert(v@.subrange(0, end as int) =~= v@);
    while end > 0 && v[end - 1] == '/'
        invariant
            end <= v.len(),
            strip_back(v@, slash_fn()) == strip_back(v@.subrange(0, end as int), slash_fn()),
        decreases end,
    {
        assert(v@.subrange(0, end as int).drop_last() =~= v@.subrange(0, end - 1));
        end = end - 1;
    }
    let back = crate::text::slice_chars(v, 0, end);
    assert(strip_back(back@, slash_fn()) == back@);
    let mut start: usize = 0;
    assert(back@.subrange(0, back.len() as int) =~= back@);
    while start < back.len() && back[start] == '/'
        invariant
            start <= back.len(),
            strip_front(back@, slash_fn()) == strip_front(
                back@.subrange(start as int, back.len() as int),
                slash_fn(),
            ),
        decreases back.len() - start,
    {
        assert(back@.subrange(start as int, back.len() as int).drop_first() =~= back@.subrange(
            start + 1,
            back.len() as int,
        ));
        start = start + 1;
    }
    let r = crate::text::slice_chars(&back, start, back.len());
    assert(strip_front(r@, slash_fn()) == r@);
    r
}

/// A rule from a pattern already cleaned of white space and `!`.
pub fn build_ignore_rule(base: &String, pattern: &Vec<char>, negated: bool) -> (r: Option<
    IgnoreRule,
>)
    ensures
        match rule_of(base@, pattern@, negated) {
            Some(v) => r is Some && rule_view(r->Some_0) == v,
            None => r is None,
        },
{
    if pattern.len() == 0 {
        return None;
    }
    let dir_only = pattern[pattern.len() - 1] == '/';
    let text = strip_slashes_both(pattern);
    if text.len() == 0 {
        return None;
    }
    Some(
        IgnoreRule {
            base: crate::text::clone_string(base),
            has_slash: crate::text::contains_char(&text, '/'),
            pattern: crate::text::string_of(&text),
            negated,
            dir_only,
        },
    )
}

/// The rule of one ignore-file line.
pub fn parse_ignore_rule(base: &String, line: &Vec<char>) -> (r: Option<IgnoreRule>)
    ensures
        match line_rule(base@, line@) {
            Some(v) => r is Some && rule_view(r->Some_0) == v,
            None => r is None,
        },
{
    let pattern = strip_ends(line, false);
    if pattern.len() == 0 || pattern[0] == '#' {
        return None;
    }
    let negated = pattern[0] == '!';
    if negated {
        let rest = crate::text::slice_chars(&pattern, 1, pattern.len());
        assert(rest@ =~= pattern@.drop_first());
        let rest = strip_ends(&rest, false);
        return build_ignore_rule(base, &rest, true);
    }
    build_ignore_rule(base, &pattern, false)
}

/// The rules of an ignore file in `dir` holding `content`.
pub fn rules_from_gitignore(dir: &String, content: &str) -> (r: Vec<IgnoreRule>)
    ensures
        rule_views(r@) == rules_of_lines(dir@, text_lines(content@)),
{
    let t = chars_of(content);
    let mut r: Vec<IgnoreRule> = Vec::new();
    let mut pos: usize = 0;
    assert(t@.subrange(0, t.len() as int) =~= t@);
    while pos < t.len()
        invariant
            pos <= t.len(),
            t@ == content@,
            rules_of_lines(dir@, text_lines(content@)) == rule_views(r@) + rules_of_lines(
                dir@,
                text_lines(t@.subrange(pos as int, t.len() as int)),
            ),
        decreases t.len() - pos,
    {
        let ghost rest = t@.subrange(pos as int, t.len() as int);
        let ghost before = rule_views(r@);
        let (line, next) = next_line(&t, pos);
        let ghost lines = text_lines(rest);
        assert(lines[0] == line@);
        assert(lines.drop_first() =~= text_lines(t@.subrange(next as int, t.len() as int)));
        match parse_ignore_rule(dir, &line) {
            Some(rule) => {
                r.push(rule);
                assert(rule_views(r@) =~= before.push(rule_view(r@.last())));
            },
            None => {
                assert(rule_views(r@) =~= before);
            },
        }
        pos = next;
    }
    assert(t@.subrange(pos as int, t.len() as int) =~= Seq::<char>::empty());
    assert(rule_views(r@) + Seq::<(Seq<char>, Seq<char>, bool, bool, bool)>::empty() =~= rule_views(
        r@,
    ));
    r
}

/// The directories above a path, outermost first.
pub open spec fn ancestors(path: Seq<char>) -> Seq<Seq<char>>
    decreases path.len(),
{
    match path_parent(path) {
        Some(d) => if d.len() < path.len() {
            ancestors(d).push(d)
        } else {
            seq![d]
        },
        None => Seq::empty(),
    }
}

/// The ignore rules that apply to a path: those of each directory above
/// it, outermost first (`contents[i]` is the text of `dirs[i]`'s ignore
/// file, if it has one).
pub open spec fn rules_for(dirs: Seq<Seq<char>>, contents: Seq<Option<Seq<char>>>) -> Seq<
    (Seq<char>, Seq<char>, bool, bool, bool),
>
    decreases dirs.len(),
{
    if dirs.len() == 0 || contents.len() == 0 {
        Seq::empty()
    } else {
        rules_for(dirs.drop_last(), contents.drop_last()) + match contents.last() {
            Some(text) => rules_of_lines(dirs.last(), text_lines(text)),
            None => Seq::empty(),
        }
    }
}

pub open spec fn option_views(v: Seq<Option<String>>) -> Seq<Option<Seq<char>>> {
    v.map_values(
        |o: Option<String>|
            match o {
                Some(s) => Some(s@),
                None => None,
            },
    )
}

/// The rules of all the given directories, in order.
pub fn gitignore_rules_for(dirs: &Vec<String>, contents: &Vec<Option<String>>) -> (r: Vec<
    IgnoreRule,
>)
    requires
        dirs.len() == contents.len(),
    ensures
        rule_views(r@) == rules_for(views(dirs@), option_views(contents@)),
{
    let mut r: Vec<IgnoreRule> = Vec::new();
    for i in 0..dirs.len()
        invariant
            dirs.len() == contents.len(),
            rule_views(r@) == rules_for(
                views(dirs@).take(i as int),
                option_views(contents@).take(i as int),
            ),
    {
        let ghost before = rule_views(r@);
        proof {
            assert(views(dirs@).take(i + 1).drop_last() =~= views(dirs@).take(i as int));
            assert(option_views(contents@).take(i + 1).drop_last() =~= option_views(contents@).take(
                i as int,
            ));
        }
        match &contents[i] {
            Some(text) => {
                let mut more = rules_from_gitignore(&dirs[i], text.as_str());
                let ghost added = rule_views(more@);
                r.append(&mut more);
                assert(rule_views(r@) =~= before + added);
            },
            None => {
                assert(rule_views(r@) =~= before + Seq::empty());
            },
        }
    }
    proof {
        assert(views(dirs@).take(dirs.len() as int) =~= views(dirs@));
        assert(option_views(contents@).take(contents.len() as int) =~= option_views(contents@));
    }
    r
}

/// The directories above a path, outermost first.
pub fn parent_dirs(path: &String) -> (dirs: Vec<String>)
    ensures
        views(dirs@) == ancestors(path@),
{
    let mut found: Vec<String> = Vec::new();
    let mut current = crate::text::clone_string(path);
    loop
        invariant
            ancestors(path@) == ancestors(current@) + views(found@).reverse(),
        ensures
            ancestors(path@) == views(found@).reverse(),
        decreases current@.len(),
    {
        match crate::collect::parent_of(current.as_str()) {
            Some(dir) => {
                let ghost before = views(found@);
                assert(ancestors(current@) == ancestors(dir@).push(dir@));
                found.push(crate::text::clone_string(&dir));
                assert(views(found@) =~= before.push(dir@));
                assert(views(found@).reverse() =~= seq![dir@] + before.reverse());
                assert(ancestors(current@) + before.reverse() =~= ancestors(dir@) + views(
                    found@,
                ).reverse());
                current = dir;
            },
            None => {
                assert(ancestors(current@) =~= Seq::<Seq<char>>::empty());
                assert(ancestors(path@) =~= views(found@).reverse());
                break ;
            },
        }
    }
    let mut dirs: Vec<String> = Vec::new();
    assert(views(dirs@) + views(found@).reverse() =~= ancestors(path@));
    while found.len() > 0
        invariant
            views(dirs@) + views(found@).reverse() == ancestors(path@),
        decreases found.len(),
    {
        let ghost before_found = views(found@);
        let ghost before_dirs = views(dirs@);
        let d = found.pop().unwrap();
        assert(before_found =~= views(found@).push(d@));
        dirs.push(d);
        assert(views(dirs@) =~= before_dirs.push(d@));
        assert(before_found.reverse() =~= seq![d@] + views(found@).reverse());
        assert(views(dirs@) + views(found@).reverse() =~= before_dirs + before_found.reverse());
    }
    assert(views(found@).reverse() =~= Seq::<Seq<char>>::empty());
    assert(views(dirs@) + views(found@).reverse() =~= views(dirs@));
    dirs
}

// ---------------------------------------------------------------------------
// Matching
// ---------------------------------------------------------------------------

/// The path relative to a base, as `std::path::Path::strip_prefix` returns
/// it (component by component).
pub uninterp spec fn path_strip_prefix(path: Seq<char>, base: Seq<char>) -> Option<Seq<char>>;

/// Calls `std::path::Path::strip_prefix`; the result is claimed to be
/// `path_strip_prefix` of the two paths.
#[verifier::external_body]
fn strip_prefix_of(path: &str, base: &str) -> (r: Option<String>)
    ensures
        match r {
            Some(rel) => path_strip_prefix(path@, base@) == Some(rel@),
            None => path_strip_prefix(path@, base@) is None,
        },
{
    match std::path::Path::new(path).strip_prefix(base) {
        Ok(rel) => Some(rel.to_string_lossy().into_owned()),
        Err(_) => None,
    }
}

/// Backslashes turned into slashes.
pub open spec fn forward_slashes(s: Seq<char>) -> Seq<char> {
    s.map_values(|c: char| if c == '\\' { '/' } else { c })
}

/// Whether a rule applies to a path: directory-only rules need a
/// directory; the path must lie below the rule's directory; a pattern with
/// a slash must match the whole relative path, any other one of its
/// pieces.
pub open spec fn rule_applies(
    r: (Seq<char>, Seq<char>, bool, bool, bool),
    path: Seq<char>,
    is_dir: bool,
) -> bool {
    if r.3 && !is_dir {
        false
    } else {
        match path_strip_prefix(path, r.0) {
            None => false,
            Some(rel) => relative_matches(r.1, forward_slashes(rel), r.4),
        }
    }
}

/// A pattern with a slash must match the whole relative path, any other
/// one of its pieces.
pub open spec fn relative_matches(pattern: Seq<char>, rel: Seq<char>, has_slash: bool) -> bool {
    if has_slash {
        glob(utf8(pattern), utf8(rel))
    } else {
        exists|k: int|
            0 <= k < split_pieces(rel, '/').len() && glob(utf8(pattern), utf8(#[trigger] split_pieces(rel, '/')[k]))
    }
}

fn forward_slashes_of(s: &String) -> (r: String)
    ensures
        r@ == forward_slashes(s@),
{
    let v = chars_of(s.as_str());
    let mut out: Vec<char> = Vec::new();
    for i in 0..v.len()
        invariant
            out@ == forward_slashes(v@.take(i as int)),
    {
        out.push(
            if v[i] == '\\' {
                '/'
            } else {
                v[i]
            },
        );
        assert(forward_slashes(v@.take(i + 1)) =~= forward_slashes(v@.take(i as int)).push(
            if v@[i as int] == '\\' {
                '/'
            } else {
                v@[i as int]
            },
        ));
    }
    assert(v@.take(v.len() as int) =~= v@);
    crate::text::string_of(&out)
}

/// Whether the pattern matches one of the `/`-separated pieces.
fn any_piece_matches(pattern: &str, rel: &Vec<char>) -> (b: bool)
    ensures
        b == exists|k: int|
            0 <= k < split_pieces(rel@, '/').len() && glob(
                utf8(pattern@),
                utf8(#[trigger] split_pieces(rel@, '/')[k]),
            ),
{
    let mut pos: usize = 0;
    let ghost all = split_pieces(rel@, '/');
    let ghost mut checked: Seq<Seq<char>> = Seq::empty();
    assert(rel@.subrange(0, rel.len() as int) =~= rel@);
    assert(all =~= checked + split_pieces(rel@.subrange(0, rel.len() as int), '/'));
    loop
        invariant
            pos <= rel.len(),
            all == split_pieces(rel@, '/'),
            all == checked + split_pieces(rel@.subrange(pos as int, rel.len() as int), '/'),
            forall|k: int| 0 <= k < checked.len() ==> !glob(utf8(pattern@), utf8(#[trigger] checked[k])),
        decreases rel.len() - pos,
    {
        let ghost s = rel@.subrange(pos as int, rel.len() as int);
        let ghost rest = split_pieces(s, '/');
        proof {
            crate::text::lemma_first_index(s, '/');
        }
        match crate::collect::find_from(rel, '/', pos) {
            Some(i) => {
                let piece = crate::text::slice_chars(rel, pos, i);
                let text = crate::text::string_of(&piece);
                proof {
                    let k = i - pos;
                    assert(s.subrange(0, k) =~= piece@);
                    assert(s.subrange(k + 1, s.len() as int) =~= rel@.subrange(i + 1, rel.len() as int));
                    assert(rest =~= seq![piece@] + split_pieces(rel@.subrange(i + 1, rel.len() as int), '/'));
                    assert(all[checked.len() as int] == piece@);
                }
                if wildcard_match(pattern, text.as_str()) {
                    return true;
                }
                proof {
                    assert(all =~= checked.push(piece@) + split_pieces(
                        rel@.subrange(i + 1, rel.len() as int),
                        '/',
                    ));
                    checked = checked.push(piece@);
                }
                pos = i + 1;
            },
            None => {
                let piece = crate::text::slice_chars(rel, pos, rel.len());
                let text = crate::text::string_of(&piece);
                proof {
                    assert(rest =~= seq![piece@]);
                    assert(all =~= checked.push(piece@));
                }
                let m = wildcard_match(pattern, text.as_str());
                proof {
                    if !m {
                        assert forall|k: int| 0 <= k < all.len() implies !glob(
                            utf8(pattern@),
                            utf8(#[trigger] all[k]),
                        ) by {
                            if k < checked.len() {
                                assert(all[k] == checked[k]);
                            }
                        }
                    } else {
                        assert(glob(utf8(pattern@), utf8(all[checked.len() as int])));
                    }
                }
                return m;
            },
        }
    }
}

impl IgnoreRule {
    /// Whether the rule applies to a path.
    pub fn matches(&self, path: &String, is_dir: bool) -> (b: bool)
        ensures
            b == rule_applies(rule_view(*self), path@, is_dir),
    {
        if self.dir_only && !is_dir {
            return false;
        }
        let relative = match strip_prefix_of(path.as_str(), self.base.as_str()) {
            Some(rel) => rel,
            None => {
                return false;
            },
        };
        let ghost raw = relative@;
        let relative = forward_slashes_of(&relative);
        assert(path_strip_prefix(path@, self.base@) == Some(raw));
        assert(relative@ == forward_slashes(raw));
        if self.has_slash {
            wildcard_match(self.pattern.as_str(), relative.as_str())
        } else {
            let chars = chars_of(relative.as_str());
            assert(chars@ == forward_slashes(raw));
            let b = any_piece_matches(self.pattern.as_str(), &chars);
            assert(b == exists|k: int|
                0 <= k < split_pieces(forward_slashes(raw), '/').len() && glob(
                    utf8(self.pattern@),
                    utf8(#[trigger] split_pieces(forward_slashes(raw), '/')[k]),
                ));
            b
        }
    }
}

/// Whether the rules ignore a path: the last rule that applies decides
/// (ignored unless it is negated); no rule, not ignored.
pub open spec fn ignored_by_rules(
    rules: Seq<(Seq<char>, Seq<char>, bool, bool, bool)>,
    path: Seq<char>,
    is_dir: bool,
) -> bool
    decreases rules.len(),
{
    if rules.len() == 0 {
        false
    } else if rule_applies(rules.last(), path, is_dir) {
        !rules.last().2
    } else {
        ignored_by_rules(rules.drop_last(), path, is_dir)
    }
}

/// The patterns of the rules that apply to a path, in order.
pub open spec fn applying_patterns(
    rules: Seq<(Seq<char>, Seq<char>, bool, bool, bool)>,
    path: Seq<char>,
    is_dir: bool,
) -> Seq<Seq<char>>
    decreases rules.len(),
{
    if rules.len() == 0 {
        Seq::empty()
    } else {
        let prev = applying_patterns(rules.drop_last(), path, is_dir);
        if rule_applies(rules.last(), path, is_dir) {
            prev.push(rules.last().1)
        } else {
            prev
        }
    }
}

/// The note printed with `--debug` when a rule applies.
pub open spec fn debug_note(pattern: Seq<char>, path: Seq<char>) -> Seq<char> {
    "lsef debug: gitignore "@ + pattern + " matched "@ + path
}

/// Whether the rules ignore a path, and with `debug` one note per rule
/// that applies.
pub fn is_ignored_by_gitignore(rules: &Vec<IgnoreRule>, path: &String, is_dir: bool, debug: bool) -> (r: (
    bool,
    Vec<String>,
))
    ensures
        r.0 == ignored_by_rules(rule_views(rules@), path@, is_dir),
        views(r.1@) == if debug {
            applying_patterns(rule_views(rules@), path@, is_dir).map_values(
                |p: Seq<char>| debug_note(p, path@),
            )
        } else {
            Seq::empty()
        },
{
    let ghost rv = rule_views(rules@);
    let mut ignored = false;
    let mut notes: Vec<String> = Vec::new();
    for i in 0..rules.len()
        invariant
            rv == rule_views(rules@),
            ignored == ignored_by_rules(rv.take(i as int), path@, is_dir),
            views(notes@) == if debug {
                applying_patterns(rv.take(i as int), path@, is_dir).map_values(
                    |p: Seq<char>| debug_note(p, path@),
                )
            } else {
                Seq::empty()
            },
    {
        let ghost before = views(notes@);
        proof {
            assert(rv.take(i + 1).drop_last() =~= rv.take(i as int));
            assert(rv.take(i + 1).last() == rule_view(rules@[i as int]));
        }
        if rules[i].matches(path, is_dir) {
            ignored = !rules[i].negated;
            if debug {
                let mut note = String::from_str("lsef debug: gitignore ");
                proof {
                    reveal_strlit("lsef debug: gitignore ");
                }
                crate::text::push_str(&mut note, rules[i].pattern.as_str());
                crate::text::push_str(&mut note, " matched ");
                crate::text::push_str(&mut note, path.as_str());
                notes.push(note);
                assert(views(notes@) =~= before.push(debug_note(rules@[i as int].pattern@, path@)));
                assert(applying_patterns(rv.take(i + 1), path@, is_dir).map_values(
                    |p: Seq<char>| debug_note(p, path@),
                ) =~= applying_patterns(rv.take(i as int), path@, is_dir).map_values(
                    |p: Seq<char>| debug_note(p, path@),
                ).push(debug_note(rules@[i as int].pattern@, path@)));
            }
        } else {
            assert(applying_patterns(rv.take(i + 1), path@, is_dir) == applying_patterns(
                rv.take(i as int),
                path@,
                is_dir,
            ));
        }
    }
    proof {
        assert(rv.take(rules.len() as int) =~= rv);
    }
    (ignored, notes)
}

proof fn lemma_last_applying_rule(
    rs: Seq<(Seq<char>, Seq<char>, bool, bool, bool)>,
    path: Seq<char>,
    is_dir: bool,
    i: int,
)
    requires
        0 <= i < rs.len(),
        rule_applies(rs[i], path, is_dir),
        forall|j: int| i < j < rs.len() ==> !rule_applies(#[trigger] rs[j], path, is_dir),
    ensures
        ignored_by_rules(rs, path, is_dir) == !rs[i].2,
    decreases rs.len(),
{
    if i < rs.len() - 1 {
        assert(!rule_applies(rs[rs.len() - 1], path, is_dir));
        assert forall|j: int| i < j < rs.drop_last().len() implies !rule_applies(
            #[trigger] rs.drop_last()[j],
            path,
            is_dir,
        ) by {
            assert(rs.drop_last()[j] == rs[j]);
        }
        lemma_last_applying_rule(rs.drop_last(), path, is_dir, i);
    }
}

proof fn lemma_no_applying_rule(
    rs: Seq<(Seq<char>, Seq<char>, bool, bool, bool)>,
    path: Seq<char>,
    is_dir: bool,
)
    requires
        forall|j: int| 0 <= j < rs.len() ==> !rule_applies(#[trigger] rs[j], path, is_dir),
    ensures
        !ignored_by_rules(rs, path, is_dir),
    decreases rs.len(),
{
    if rs.len() > 0 {
        assert(!rule_applies(rs[rs.len() - 1], path, is_dir));
        assert forall|j: int| 0 <= j < rs.drop_last().len() implies !rule_applies(
            #[trigger] rs.drop_last()[j],
            path,
            is_dir,
        ) by {
            assert(rs.drop_last()[j] == rs[j]);
        }
        lemma_no_applying_rule(rs.drop_last(), path, is_dir);
    }
}

/// Among the `.gitignore` rules that apply to a path, the last one
/// decides: the path is ignored unless that rule is negated (`!`), whatever
/// earlier rules matched; so `*.log` then `!keep.log` leaves `keep.log`
/// listed.
pub proof fn the_last_applying_rule_decides(
    rules: Seq<IgnoreRule>,
    path: Seq<char>,
    is_dir: bool,
    i: int,
)
    requires
        0 <= i < rules.len(),
        rule_applies(rule_view(rules[i]), path, is_dir),
        forall|j: int| i < j < rules.len() ==> !rule_applies(rule_view(#[trigger] rules[j]), path, is_dir),
    ensures
        ignored_by_rules(rule_views(rules), path, is_dir) == !rules[i].negated,
{
    let rs = rule_views(rules);
    assert forall|j: int| i < j < rs.len() implies !rule_applies(#[trigger] rs[j], path, is_dir) by {
        assert(rs[j] == rule_view(rules[j]));
    }
    assert(rs[i] == rule_view(rules[i]));
    lemma_last_applying_rule(rs, path, is_dir, i);
}

/// A path that no rule applies to is not ignored.
pub proof fn paths_no_rule_applies_to_are_kept(rules: Seq<IgnoreRule>, path: Seq<char>, is_dir: bool)
    requires
        forall|j: int| 0 <= j < rules.len() ==> !rule_applies(rule_view(#[trigger] rules[j]), path, is_dir),
    ensures
        !ignored_by_rules(rule_views(rules), path, is_dir),
{
    let rs = rule_views(rules);
    assert forall|j: int| 0 <= j < rs.len() implies !rule_applies(#[trigger] rs[j], path, is_dir) by {
        assert(rs[j] == rule_view(rules[j]));
    }
    lemma_no_applying_rule(rs, path, is_dir);
}

/// A rule read from a `.gitignore` line is negated exactly when the line
/// starts with `!`, is for directories only exactly when its pattern ends
/// in `/`, and belongs to the directory the file is in; blank lines and
/// comments give no rule.
pub proof fn gitignore_lines_give_rules(base: Seq<char>, line: Seq<char>)
    ensures
        ({
            let t = trimmed(line);
            &&& (t.len() == 0 || t[0] == '#') ==> line_rule(base, line) is None
            &&& line_rule(base, line) matches Some(r) ==> {
                &&& r.0 == base
                &&& r.2 == (t[0] == '!')
                &&& r.3 == (if t[0] == '!' {
                    trimmed(t.drop_first()).last() == '/'
                } else {
                    t.last() == '/'
                })
            }
        }),
{
}

} // verus!
