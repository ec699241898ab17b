//! The environment resolver: a key/value store of environment variables,
//! filled from `KEY=VALUE` files, and single-pass `$NAME` substitution.

use vstd::prelude::*;
use vstd::string::*;

use crate::entries::{
    find_key, keys_unique, lemma_map_absent, lemma_map_found, lemma_map_same_views, map_of,
    put_entry,
};
use crate::text::{
    alphanumeric, chars_of, is_alnum, lines, lines_from, push_chars, space_marks, spaces_of, string_of,
    trim_end, trim_range, trim_start, trimmed, views,
};

verus! {

/// The environment files that a manifest declares, relative to the
/// manifest's own directory, in the order they are loaded.
#[derive(Debug, Clone)]
pub struct EnvConfig {
    pub files: Vec<String>,
}

/// A character that may stand in a variable name after `$`.
pub open spec fn is_ident_char(c: char) -> bool {
    alphanumeric(c) || c == '_'
}

/// For each character of `s`, whether it may stand in a variable name.
pub open spec fn name_marks(s: Seq<char>) -> Seq<bool> {
    Seq::new(s.len(), |i: int| is_ident_char(s[i]))
}

/// The number of leading `true` marks.
pub open spec fn run_len(marks: Seq<bool>) -> nat
    decreases marks.len(),
{
    if marks.len() > 0 && marks[0] {
        1 + run_len(marks.drop_first())
    } else {
        0
    }
}

/// A run of `m` true marks ended by the end of `marks` or by a false mark.
proof fn lemma_run(marks: Seq<bool>, m: int)
    requires
        0 <= m <= marks.len(),
        forall|k: int| 0 <= k < m ==> #[trigger] marks[k],
        m == marks.len() || !marks[m],
    ensures
        run_len(marks) == m,
    decreases m,
{
    if m > 0 {
        assert forall|k: int| 0 <= k < m - 1 implies #[trigger] marks.drop_first()[k] by {
            assert(marks.drop_first()[k] == marks[k + 1]);
        }
        lemma_run(marks.drop_first(), m - 1);
    }
}

/// Where a `$NAME` token starts `s`, the length of the token; `marks`
/// tells which characters of `s` may stand in a name.
pub open spec fn token_len(s: Seq<char>, marks: Seq<bool>) -> nat {
    if s.len() > 0 && s[0] == '$' && 0 < run_len(marks.drop_first()) < s.len() {
        run_len(marks.drop_first()) + 1
    } else {
        0
    }
}

/// `s` with each `$NAME` whose name is defined in `vars` replaced by its
/// value, scanning left to right; `marks` tells which characters may stand
/// in a name. Replaced values are never scanned again, and a `$NAME` with
/// an undefined name stays as it is.
pub open spec fn substituted_marked(
    vars: Map<Seq<char>, Seq<char>>,
    s: Seq<char>,
    marks: Seq<bool>,
) -> Seq<char>
    decreases s.len(),
{
    if s.len() == 0 {
        seq![]
    } else if token_len(s, marks) > 0 {
        let end = token_len(s, marks) as int;
        let name = s.subrange(1, end);
        let rest = substituted_marked(vars, s.skip(end), marks.skip(end));
        if vars.contains_key(name) {
            vars[name] + rest
        } else {
            s.take(end) + rest
        }
    } else {
        seq![s[0]] + substituted_marked(vars, s.drop_first(), marks.drop_first())
    }
}

/// The names of the `$NAME` tokens of `s` that `substituted_marked` leaves
/// in place because `vars` does not define them, in order.
pub open spec fn unresolved_marked(
    vars: Map<Seq<char>, Seq<char>>,
    s: Seq<char>,
    marks: Seq<bool>,
) -> Seq<Seq<char>>
    decreases s.len(),
{
    if s.len() == 0 {
        seq![]
    } else if token_len(s, marks) > 0 {
        let end = token_len(s, marks) as int;
        let name = s.subrange(1, end);
        let rest = unresolved_marked(vars, s.skip(end), marks.skip(end));
        if vars.contains_key(name) {
            rest
        } else {
            seq![name] + rest
        }
    } else {
        unresolved_marked(vars, s.drop_first(), marks.drop_first())
    }
}

/// `s` with each `$NAME` of a defined variable replaced by its value, in
/// one left-to-right pass.
pub open spec fn substituted(vars: Map<Seq<char>, Seq<char>>, s: Seq<char>) -> Seq<char> {
    substituted_marked(vars, s, name_marks(s))
}

/// The names of the `$NAME` tokens of `s` that `vars` does not define.
pub open spec fn unresolved(vars: Map<Seq<char>, Seq<char>>, s: Seq<char>) -> Seq<Seq<char>> {
    unresolved_marked(vars, s, name_marks(s))
}

/// Substitution leaves a text without `$` as it is.
pub proof fn lemma_no_dollar_unchanged(vars: Map<Seq<char>, Seq<char>>, s: Seq<char>, marks: Seq<bool>)
    requires
        !s.contains('$'),
    ensures
        substituted_marked(vars, s, marks) == s,
    decreases s.len(),
{
    if s.len() > 0 {
        assert(s[0] != '$');
        assert(!s.drop_first().contains('$')) by {
            if s.drop_first().contains('$') {
                let j = choose|j: int| 0 <= j < s.drop_first().len() && s.drop_first()[j] == '$';
                assert(s[j + 1] == '$');
            }
        }
        lemma_no_dollar_unchanged(vars, s.drop_first(), marks.drop_first());
        assert(seq![s[0]] + s.drop_first() == s);
    }
}


/// The index of the first `c` in `s`, if there is one.
pub open spec fn first_index(s: Seq<char>, c: char) -> Option<nat>
    decreases s.len(),
{
    if s.len() == 0 {
        None
    } else if s[0] == c {
        Some(0)
    } else {
        match first_index(s.drop_first(), c) {
            Some(k) => Some(k + 1),
            None => None,
        }
    }
}

/// `v` without one pair of matching single or double quotes around it.
pub open spec fn unquoted(v: Seq<char>) -> Seq<char> {
    if v.len() >= 2 && ((v[0] == '"' && v.last() == '"') || (v[0] == '\'' && v.last() == '\'')) {
        v.subrange(1, v.len() - 1)
    } else {
        v
    }
}

/// The variable that one line of an environment file defines, where `sp`
/// marks which of its characters are white space. Blank lines, lines
/// starting with `#`, lines without `=` and lines with an empty name define
/// none.
pub open spec fn record(line: Seq<char>, sp: Seq<bool>) -> Option<(Seq<char>, Seq<char>)> {
    let t = trimmed(line, sp);
    if t.0.len() == 0 || t.0[0] == '#' {
        None
    } else {
        match first_index(t.0, '=') {
            None => None,
            Some(p) => {
                let key = trimmed(t.0.take(p as int), t.1.take(p as int)).0;
                if key.len() == 0 {
                    None
                } else {
                    Some((key, unquoted(trimmed(t.0.skip(p + 1int), t.1.skip(p + 1int)).0)))
                }
            },
        }
    }
}

/// The variables that a sequence of lines with their marks defines, in
/// order.
pub open spec fn records(ls: Seq<(Seq<char>, Seq<bool>)>) -> Seq<(Seq<char>, Seq<char>)>
    decreases ls.len(),
{
    if ls.len() == 0 {
        seq![]
    } else {
        match record(ls.last().0, ls.last().1) {
            Some(e) => records(ls.drop_last()).push(e),
            None => records(ls.drop_last()),
        }
    }
}

/// The variables that the text of an environment file defines, in order,
/// where `sp` marks which of its characters are white space.
pub open spec fn env_records_marked(text: Seq<char>, sp: Seq<bool>) -> Seq<(Seq<char>, Seq<char>)> {
    records(lines(text, sp))
}

/// The variables that the text of an environment file defines, in order.
pub open spec fn env_records(text: Seq<char>) -> Seq<(Seq<char>, Seq<char>)> {
    env_records_marked(text, space_marks(text))
}

/// `m` after defining each of `rs` in order; a later definition wins.
pub open spec fn with_records(
    m: Map<Seq<char>, Seq<char>>,
    rs: Seq<(Seq<char>, Seq<char>)>,
) -> Map<Seq<char>, Seq<char>>
    decreases rs.len(),
{
    if rs.len() == 0 {
        m
    } else {
        with_records(m, rs.drop_last()).insert(rs.last().0, rs.last().1)
    }
}

/// `m` after loading each of the file texts `texts` in order.
pub open spec fn with_texts(
    m: Map<Seq<char>, Seq<char>>,
    texts: Seq<Seq<char>>,
) -> Map<Seq<char>, Seq<char>>
    decreases texts.len(),
{
    if texts.len() == 0 {
        m
    } else {
        with_records(with_texts(m, texts.drop_last()), env_records(texts.last()))
    }
}

proof fn lemma_first_index(s: Seq<char>, c: char, m: int)
    requires
        0 <= m <= s.len(),
        forall|k: int| 0 <= k < m ==> #[trigger] s[k] != c,
        m == s.len() || s[m] == c,
    ensures
        first_index(s, c) == (if m == s.len() {
            None
        } else {
            Some(m as nat)
        }),
    decreases m,
{
    if m > 0 {
        assert forall|k: int| 0 <= k < m - 1 implies #[trigger] s.drop_first()[k] != c by {
            assert(s.drop_first()[k] == s[k + 1]);
        }
        lemma_first_index(s.drop_first(), c, m - 1);
    }
}

/// The variable that the line `cs[from..to]` of an environment file
/// defines, where `sp` marks white space.
fn parse_record(cs: &[char], sp: &[bool], from: usize, to: usize) -> (r: Option<(String, String)>)
    requires
        from <= to <= cs@.len(),
        sp@.len() == cs@.len(),
    ensures
        match r {
            Some(e) => record(
                cs@.subrange(from as int, to as int),
                sp@.subrange(from as int, to as int),
            ) == Some((e.0@, e.1@)),
            None => record(
                cs@.subrange(from as int, to as int),
                sp@.subrange(from as int, to as int),
            ) is None,
        },
{
    let (a, b) = trim_range(cs, sp, from, to);
    let ghost t = cs@.subrange(a as int, b as int);
    let ghost tsp = sp@.subrange(a as int, b as int);
    if a == b || cs[a] == '#' {
        return None;
    }
    let mut p: usize = a;
    while p < b && cs[p] != '='
        invariant
            a <= p <= b <= cs@.len(),
            forall|k: int| a <= k < p ==> #[trigger] cs@[k] != '=',
        decreases b - p,
    {
        p += 1;
    }
    proof {
        assert forall|k: int| 0 <= k < p - a implies #[trigger] t[k] != '=' by {
            assert(t[k] == cs@[a + k]);
        }
        if p < b {
            assert(t[p - a] == cs@[p as int]);
        }
        lemma_first_index(t, '=', p - a);
    }
    if p == b {
        return None;
    }
    let (ka, kb) = trim_range(cs, sp, a, p);
    assert(t.take(p - a) == cs@.subrange(a as int, p as int));
    assert(tsp.take(p - a) == sp@.subrange(a as int, p as int));
    if ka == kb {
        return None;
    }
    let (va, vb) = trim_range(cs, sp, p + 1, b);
    assert(t.skip(p - a + 1) == cs@.subrange(p + 1, b as int));
    assert(tsp.skip(p - a + 1) == sp@.subrange(p + 1, b as int));
    let ghost v = cs@.subrange(va as int, vb as int);
    let quoted = vb - va >= 2 && ((cs[va] == '"' && cs[vb - 1] == '"') || (cs[va] == '\'' && cs[vb
        - 1] == '\''));
    let (ua, ub) = if quoted {
        assert(v[0] == cs@[va as int] && v.last() == cs@[vb - 1]);
        assert(v.subrange(1, v.len() - 1) == cs@.subrange(va + 1, vb - 1));
        (va + 1, vb - 1)
    } else {
        proof {
            if v.len() >= 2 {
                assert(v[0] == cs@[va as int] && v.last() == cs@[vb - 1]);
            }
        }
        (va, vb)
    };
    Some((string_of(cs, ka, kb), string_of(cs, ua, ub)))
}

/// Trimming keeps out a character that `s` does not hold.
proof fn lemma_trim_start_free(s: Seq<char>, sp: Seq<bool>, c: char)
    requires
        !s.contains(c),
    ensures
        !trim_start(s, sp).0.contains(c),
    decreases s.len(),
{
    if s.len() > 0 && sp.len() > 0 && sp[0] {
        assert(!s.drop_first().contains(c)) by {
            if s.drop_first().contains(c) {
                let j = choose|j: int| 0 <= j < s.drop_first().len() && s.drop_first()[j] == c;
                assert(s[j + 1] == c);
            }
        }
        lemma_trim_start_free(s.drop_first(), sp.drop_first(), c);
    }
}

/// Trimming keeps out a character that `s` does not hold.
proof fn lemma_trim_end_free(s: Seq<char>, sp: Seq<bool>, c: char)
    requires
        !s.contains(c),
    ensures
        !trim_end(s, sp).0.contains(c),
    decreases s.len(),
{
    if s.len() > 0 && sp.len() == s.len() && sp.last() {
        assert(!s.drop_last().contains(c)) by {
            if s.drop_last().contains(c) {
                let j = choose|j: int| 0 <= j < s.drop_last().len() && s.drop_last()[j] == c;
                assert(s[j] == c);
            }
        }
        lemma_trim_end_free(s.drop_last(), sp.drop_last(), c);
    }
}

proof fn lemma_first_index_absent(s: Seq<char>, c: char)
    requires
        !s.contains(c),
    ensures
        first_index(s, c) is None,
    decreases s.len(),
{
    if s.len() > 0 {
        assert(s[0] != c);
        assert forall|k: int| 0 <= k < s.drop_first().len() implies s.drop_first()[k] != c by {
            assert(s.drop_first()[k] == s[k + 1]);
        }
        lemma_first_index_absent(s.drop_first(), c);
    }
}

/// A line of an environment file without `=` defines no variable,
/// whatever its white space.
pub proof fn lemma_line_without_equals(line: Seq<char>, sp: Seq<bool>)
    requires
        !line.contains('='),
    ensures
        record(line, sp) is None,
{
    lemma_trim_start_free(line, sp, '=');
    let a = trim_start(line, sp);
    lemma_trim_end_free(a.0, a.1, '=');
    lemma_first_index_absent(trimmed(line, sp).0, '=');
}

/// The environment state: the variables defined so far, and the files that
/// the manifest declares.
#[derive(Debug)]
pub struct EnvParser {
    config: Option<EnvConfig>,
    vars: Vec<(String, String)>,
}

impl View for EnvParser {
    type V = Map<Seq<char>, Seq<char>>;

    closed spec fn view(&self) -> Map<Seq<char>, Seq<char>> {
        map_of(self.vars@)
    }
}

impl Default for EnvParser {
    fn default() -> (r: EnvParser)
        ensures
            r.wf(),
            r@ == Map::<Seq<char>, Seq<char>>::empty(),
            r.spec_config() is None,
    {
        EnvParser::new()
    }
}

impl EnvParser {
    /// Well-formed: no variable is stored twice.
    pub closed spec fn wf(&self) -> bool {
        keys_unique(self.vars@)
    }

    /// The declared environment files, if any.
    pub closed spec fn spec_config(&self) -> Option<EnvConfig> {
        self.config
    }

    /// An empty environment with no declared files.
    pub fn new() -> (r: EnvParser)
        ensures
            r.wf(),
            r@ == Map::<Seq<char>, Seq<char>>::empty(),
            r.spec_config() is None,
    {
        EnvParser { config: None, vars: Vec::new() }
    }

    /// An empty environment that will be filled from the declared files.
    pub fn with_config(config: EnvConfig) -> (r: EnvParser)
        ensures
            r.wf(),
            r@ == Map::<Seq<char>, Seq<char>>::empty(),
            r.spec_config() == Some(config),
    {
        EnvParser { config: Some(config), vars: Vec::new() }
    }

    /// The declared environment files, if any.
    pub fn config(&self) -> (r: Option<&EnvConfig>)
        ensures
            match r {
                Some(c) => self.spec_config() == Some(*c),
                None => self.spec_config() is None,
            },
    {
        self.config.as_ref()
    }

    /// The value of `key`, if it is defined.
    fn lookup(&self, key: &String) -> (r: Option<&String>)
        requires
            self.wf(),
        ensures
            match r {
                Some(v) => self@.contains_key(key@) && self@[key@] == v@,
                None => !self@.contains_key(key@),
            },
    {
        match find_key(&self.vars, key) {
            Some(i) => {
                proof {
                    lemma_map_found(self.vars@, i as int);
                }
                Some(&self.vars[i].1)
            },
            None => {
                proof {
                    lemma_map_absent(self.vars@, key@);
                }
                None
            },
        }
    }

    /// The value of the variable `key`, if it is defined.
    pub fn get_env_var(&self, key: &str) -> (r: Option<String>)
        requires
            self.wf(),
        ensures
            match r {
                Some(v) => self@.contains_key(key@) && self@[key@] == v@,
                None => !self@.contains_key(key@),
            },
    {
        let k = key.to_owned();
        match self.lookup(&k) {
            Some(v) => Some(v.clone()),
            None => None,
        }
    }

    /// Defines `k` as `v`, replacing any earlier value.
    fn install(&mut self, k: String, v: String)
        requires
            old(self).wf(),
        ensures
            final(self).wf(),
            final(self)@ == old(self)@.insert(k@, v@),
            final(self).spec_config() == old(self).spec_config(),
    {
        put_entry(&mut self.vars, (k, v));
    }

    /// Defines `key` as `value`, replacing any earlier value.
    pub fn set_env_var(&mut self, key: &str, value: &str)
        requires
            old(self).wf(),
        ensures
            final(self).wf(),
            final(self)@ == old(self)@.insert(key@, value@),
            final(self).spec_config() == old(self).spec_config(),
    {
        self.install(key.to_owned(), value.to_owned());
    }

    /// Loads the text of one environment file, where `spaces` marks which
    /// of its characters are white space: each variable that it defines is
    /// set in order, a later one overwriting an earlier one. Returns how
    /// many variables the text defines.
    pub fn load_env_marked(&mut self, text: &str, spaces: &Vec<bool>) -> (count: usize)
        requires
            old(self).wf(),
            spaces@.len() == text@.len(),
        ensures
            final(self).wf(),
            final(self)@ == with_records(old(self)@, env_records_marked(text@, spaces@)),
            count == env_records_marked(text@, spaces@).len(),
            final(self).spec_config() == old(self).spec_config(),
    {
        let cs = chars_of(text);
        let n = cs.len();
        let ghost sp = spaces@;
        let mut start: usize = 0;
        let mut i: usize = 0;
        let mut count: usize = 0;
        let ghost mut done: Seq<(Seq<char>, Seq<bool>)> = seq![];
        assert(cs@.skip(0) == cs@ && sp.skip(0) == sp);
        assert(cs@.subrange(0, 0) =~= seq![] && sp.subrange(0, 0) =~= seq![]);
        while i < n
            invariant
                n == cs@.len(),
                sp == spaces@,
                sp.len() == n,
                start <= i <= n,
                done + lines_from(
                    cs@.skip(i as int),
                    sp.skip(i as int),
                    cs@.subrange(start as int, i as int),
                    sp.subrange(start as int, i as int),
                ) == lines(cs@, sp),
                self.wf(),
                self@ == with_records(old(self)@, records(done)),
                self.spec_config() == old(self).spec_config(),
                count == records(done).len(),
                count <= start,
            decreases n - i,
        {
            let ghost rest = cs@.skip(i as int);
            let ghost srest = sp.skip(i as int);
            let ghost cur = (cs@.subrange(start as int, i as int), sp.subrange(start as int, i as int));
            assert(rest[0] == cs@[i as int] && srest[0] == sp[i as int]);
            assert(rest.drop_first() == cs@.skip(i + 1));
            assert(srest.drop_first() == sp.skip(i + 1));
            if cs[i] == '\n' {
                proof {
                    assert(done.push(cur).drop_last() == done);
                    let tail = lines_from(rest.drop_first(), srest.drop_first(), seq![], seq![]);
                    assert(done + (seq![cur] + tail) == done.push(cur) + tail);
                    assert(cs@.subrange(i + 1, i + 1) =~= seq![]);
                    assert(sp.subrange(i + 1, i + 1) =~= seq![]);
                }
                match parse_record(cs.as_slice(), spaces.as_slice(), start, i) {
                    Some(e) => {
                        if start == i {
                            assert(cur.0 =~= seq![]);
                        }
                        assert(records(done).push((e.0@, e.1@)).drop_last() == records(done));
                        self.install(e.0, e.1);
                        count += 1;
                    },
                    None => {},
                }
                proof {
                    done = done.push(cur);
                }
                start = i + 1;
            } else {
                assert(cur.0.push(cs@[i as int]) == cs@.subrange(start as int, i + 1));
                assert(cur.1.push(sp[i as int]) == sp.subrange(start as int, i + 1));
            }
            i += 1;
        }
        let ghost cur = (cs@.subrange(start as int, n as int), sp.subrange(start as int, n as int));
        proof {
            assert(cs@.skip(n as int) =~= seq![]);
            assert(done.push(cur).drop_last() == done);
            assert(done + seq![cur] == done.push(cur));
        }
        match parse_record(cs.as_slice(), spaces.as_slice(), start, n) {
            Some(e) => {
                if start == n {
                    assert(cur.0 =~= seq![]);
                }
                assert(records(done).push((e.0@, e.1@)).drop_last() == records(done));
                self.install(e.0, e.1);
                count += 1;
            },
            None => {},
        }
        proof {
            done = done.push(cur);
        }
        count
    }

    /// Loads the text of one environment file: each variable that it
    /// defines is set in order, a later one overwriting an earlier one.
    /// Returns how many variables the text defines.
    pub fn load_env_text(&mut self, text: &str) -> (count: usize)
        requires
            old(self).wf(),
        ensures
            final(self).wf(),
            final(self)@ == with_records(old(self)@, env_records(text@)),
            count == env_records(text@).len(),
            final(self).spec_config() == old(self).spec_config(),
    {
        let cs = chars_of(text);
        let spaces = spaces_of(cs.as_slice());
        self.load_env_marked(text, &spaces)
    }

    /// Loads the texts of the declared environment files that could be
    /// read, in declared order; a later file may overwrite what an earlier
    /// one set. Returns how many variables each text defines.
    pub fn load_env_files(&mut self, texts: &Vec<String>) -> (counts: Vec<usize>)
        requires
            old(self).wf(),
        ensures
            final(self).wf(),
            final(self)@ == with_texts(old(self)@, views(texts@)),
            counts@.len() == texts@.len(),
            forall|i: int|
                0 <= i < texts@.len() ==> counts@[i] == env_records(#[trigger] texts@[i]@).len(),
            final(self).spec_config() == old(self).spec_config(),
    {
        let mut counts: Vec<usize> = Vec::new();
        let mut i: usize = 0;
        while i < texts.len()
            invariant
                i <= texts@.len(),
                self.wf(),
                self@ == with_texts(old(self)@, views(texts@.take(i as int))),
                self.spec_config() == old(self).spec_config(),
                counts@.len() == i,
                forall|k: int| 0 <= k < i ==> counts@[k] == env_records(#[trigger] texts@[k]@).len(),
            decreases texts@.len() - i,
        {
            assert(views(texts@.take(i + 1)).drop_last() == views(texts@.take(i as int)));
            let c = self.load_env_text(texts[i].as_str());
            counts.push(c);
            i += 1;
        }
        assert(texts@.take(i as int) == texts@);
        counts
    }

    /// All defined variables, each once, with their values.
    pub fn list_env_vars(&self) -> (r: Vec<(String, String)>)
        requires
            self.wf(),
        ensures
            keys_unique(r@),
            map_of(r@) == self@,
    {
        let mut r: Vec<(String, String)> = Vec::new();
        let mut i: usize = 0;
        while i < self.vars.len()
            invariant
                i <= self.vars@.len(),
                r@.len() == i,
                forall|k: int|
                    0 <= k < i ==> (#[trigger] r@[k]).0@ == self.vars@[k].0@ && r@[k].1@
                        == self.vars@[k].1@,
            decreases self.vars@.len() - i,
        {
            let e = (self.vars[i].0.clone(), self.vars[i].1.clone());
            r.push(e);
            i += 1;
        }
        proof {
            lemma_map_same_views(r@, self.vars@);
        }
        r
    }

    /// One pass of substitution over `command`, where `name_chars` tells
    /// which of its characters may stand in a variable name: the text, and
    /// the names left unresolved.
    pub fn expand_marked(&self, command: &str, name_chars: &Vec<bool>) -> (r: (String, Vec<String>))
        requires
            self.wf(),
            name_chars@.len() == command@.len(),
        ensures
            r.0@ == substituted_marked(self@, command@, name_chars@),
            views(r.1@) == unresolved_marked(self@, command@, name_chars@),
    {
        let cs = chars_of(command);
        let n = cs.len();
        let ghost s = cs@;
        let ghost m = name_chars@;
        let mut out = String::new();
        let mut missing: Vec<String> = Vec::new();
        let mut i: usize = 0;
        assert(s.skip(0) == s && m.skip(0) == m);
        assert(views(missing@) + unresolved_marked(self@, s, m) == unresolved_marked(self@, s, m));
        while i < n
            invariant
                self.wf(),
                n == s.len(),
                s == cs@,
                m == name_chars@,
                m.len() == n,
                i <= n,
                out@ + substituted_marked(self@, s.skip(i as int), m.skip(i as int))
                    == substituted_marked(self@, s, m),
                views(missing@) + unresolved_marked(self@, s.skip(i as int), m.skip(i as int))
                    == unresolved_marked(self@, s, m),
            decreases n - i,
        {
            let ghost rest = s.skip(i as int);
            let ghost mrest = m.skip(i as int);
            let ghost out0 = out@;
            let ghost missing0 = views(missing@);
            assert(rest[0] == s[i as int]);
            let mut j: usize = i + 1;
            if cs[i] == '$' {
                while j < n && name_chars[j]
                    invariant
                        n == s.len(),
                        m == name_chars@,
                        m.len() == n,
                        i < j <= n,
                        forall|k: int| i < k < j ==> #[trigger] m[k],
                    decreases n - j,
                {
                    j += 1;
                }
                proof {
                    let tail = mrest.drop_first();
                    assert forall|k: int| 0 <= k < j - i - 1 implies #[trigger] tail[k] by {
                        assert(tail[k] == m[i + 1 + k]);
                    }
                    if j < n {
                        assert(tail[j - i - 1] == m[j as int]);
                    }
                    lemma_run(tail, j - i - 1);
                }
            }
            proof {
                assert(rest.skip(j - i) == s.skip(j as int));
                assert(mrest.skip(j - i) == m.skip(j as int));
                assert(rest.drop_first() == s.skip(i + 1));
                assert(mrest.drop_first() == m.skip(i + 1));
            }
            if j > i + 1 {
                proof {
                    assert(token_len(rest, mrest) == j - i);
                    assert(rest.subrange(1, j - i) == s.subrange(i + 1, j as int));
                    assert(rest.take(j - i) == s.subrange(i as int, j as int));
                }
                let name = string_of(cs.as_slice(), i + 1, j);
                match self.lookup(&name) {
                    Some(v) => {
                        out.append(v.as_str());
                        proof {
                            assert(out0 + (v@ + substituted_marked(
                                self@,
                                s.skip(j as int),
                                m.skip(j as int),
                            )) == out@ + substituted_marked(self@, s.skip(j as int), m.skip(j as int)));
                        }
                    },
                    None => {
                        push_chars(&mut out, cs.as_slice(), i, j);
                        proof {
                            let tail_u = unresolved_marked(self@, s.skip(j as int), m.skip(j as int));
                            let tail_s = substituted_marked(self@, s.skip(j as int), m.skip(j as int));
                            assert(views(missing@.push(name)) == missing0 + seq![name@]);
                            assert(missing0 + (seq![name@] + tail_u) == (missing0 + seq![name@])
                                + tail_u);
                            assert(out0 + (s.subrange(i as int, j as int) + tail_s) == out@
                                + tail_s);
                        }
                        missing.push(name);
                    },
                }
                i = j;
            } else {
                assert(token_len(rest, mrest) == 0);
                push_chars(&mut out, cs.as_slice(), i, i + 1);
                proof {
                    assert(s.subrange(i as int, i + 1) == seq![rest[0]]);
                    let tail_s = substituted_marked(self@, rest.drop_first(), mrest.drop_first());
                    assert(out0 + (seq![rest[0]] + tail_s) == out@ + tail_s);
                }
                i += 1;
            }
        }
        proof {
            assert(s.skip(n as int) == Seq::<char>::empty());
            assert(out@ + seq![] == out@);
            assert(views(missing@) + seq![] == views(missing@));
        }
        (out, missing)
    }

    /// For each character of `command`, whether it may stand in a name.
    fn marks_of(command: &str) -> (r: Vec<bool>)
        ensures
            r@ == name_marks(command@),
    {
        let cs = chars_of(command);
        let mut r: Vec<bool> = Vec::new();
        let mut i: usize = 0;
        while i < cs.len()
            invariant
                cs@ == command@,
                i <= cs@.len(),
                r@ == name_marks(command@).take(i as int),
            decreases cs@.len() - i,
        {
            r.push(is_alnum(cs[i]) || cs[i] == '_');
            i += 1;
            assert(r@ =~= name_marks(command@).take(i as int));
        }
        assert(r@ =~= name_marks(command@));
        r
    }

    /// `command` with each `$NAME` of a defined variable replaced by its
    /// value, in one left-to-right pass; an undefined `$NAME` stays as it is.
    pub fn substitute_env_vars(&self, command: &str) -> (r: String)
        requires
            self.wf(),
        ensures
            r@ == substituted(self@, command@),
    {
        let marks = Self::marks_of(command);
        let (text, _) = self.expand_marked(command, &marks);
        text
    }

    /// The names of the `$NAME` tokens of `command` that substitution leaves
    /// in place because no such variable is defined, in order.
    pub fn undefined_env_vars(&self, command: &str) -> (r: Vec<String>)
        requires
            self.wf(),
        ensures
            views(r@) == unresolved(self@, command@),
    {
        let marks = Self::marks_of(command);
        let (_, missing) = self.expand_marked(command, &marks);
        missing
    }
}

} // verus!
