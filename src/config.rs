//! The catalog of problems and languages, and command-template substitution.
use vstd::prelude::*;
use vstd::string::*;

verus! {

/// Address the server binds to when the configuration names none.
pub fn default_address() -> (r: String)
    ensures
        r@ == "127.0.0.1"@,
{
    String::from_str("127.0.0.1")
}

/// Port the server binds to when the configuration names none.
pub fn default_port() -> (r: u16)
    ensures
        r == 12345,
{
    12345
}

/// One test case of a problem. `score` counts thousandths of a point;
/// `time_limit` is in microseconds.
#[derive(Debug, Clone)]
pub struct Case {
    pub score: u64,
    pub input_file: String,
    pub answer_file: String,
    pub time_limit: u32,
    pub memory_limit: u32,
}

/// A problem: its cases in order, and the special-judge command if it has one.
#[derive(Debug, Clone)]
pub struct Problem {
    pub id: u32,
    pub name: String,
    pub problem_type: String,
    pub special_judge: Option<Vec<String>>,
    pub cases: Vec<Case>,
}

/// A language: the generated source file's name and the compile command
/// template, with `%INPUT%` and `%OUTPUT%` placeholders.
#[derive(Debug, Clone)]
pub struct Language {
    pub name: String,
    pub file_name: String,
    pub command: Vec<String>,
}

/// The catalog, read at start and never changed afterwards.
#[derive(Debug, Clone)]
pub struct Config {
    pub problems: Vec<Problem>,
    pub languages: Vec<Language>,
}

/// Sum of the first `k` entries of `s`.
pub open spec fn sum_first(s: Seq<u64>, k: int) -> int
    decreases k,
{
    if k <= 0 {
        0
    } else {
        sum_first(s, k - 1) + s[k - 1]
    }
}

/// A sum of a prefix never exceeds the sum of a longer prefix.
pub proof fn lemma_sum_first_monotone(s: Seq<u64>, j: int, k: int)
    requires
        0 <= j <= k <= s.len(),
    ensures
        sum_first(s, j) <= sum_first(s, k),
    decreases k - j,
{
    if j < k {
        lemma_sum_first_monotone(s, j, k - 1);
    }
}

impl Problem {
    /// The score of each case, in order.
    pub open spec fn scores(&self) -> Seq<u64> {
        self.cases@.map_values(|c: Case| c.score)
    }

    /// Case ids fit in `u32`, and the full score of the problem fits in `u64`.
    pub open spec fn wf(&self) -> bool {
        &&& self.cases@.len() < u32::MAX
        &&& sum_first(self.scores(), self.cases@.len() as int) <= u64::MAX
    }
}

impl Problem {
    /// Tells whether the problem is well formed.
    pub fn check(&self) -> (r: bool)
        ensures
            r == self.wf(),
    {
        let n = self.cases.len();
        if n >= 0xffff_ffff {
            return false;
        }
        let mut total: u64 = 0;
        let mut i: usize = 0;
        while i < n
            invariant
                n == self.cases@.len(),
                i <= n,
                total == sum_first(self.scores(), i as int),
            decreases n - i,
        {
            let s = self.cases[i].score;
            if total > u64::MAX - s {
                proof {
                    lemma_sum_first_monotone(self.scores(), i + 1, n as int);
                }
                return false;
            }
            total = total + s;
            i = i + 1;
        }
        true
    }
}

impl Config {
    /// Tells whether every problem of the catalog is well formed.
    pub fn check(&self) -> (r: bool)
        ensures
            r == self.wf(),
    {
        let mut i: usize = 0;
        while i < self.problems.len()
            invariant
                i <= self.problems@.len(),
                forall|j: int| 0 <= j < i ==> (#[trigger] self.problems@[j]).wf(),
            decreases self.problems@.len() - i,
        {
            if !self.problems[i].check() {
                return false;
            }
            i = i + 1;
        }
        true
    }

    pub open spec fn has_problem(&self, id: u32) -> bool {
        exists|i: int| 0 <= i < self.problems@.len() && #[trigger] self.problems@[i].id == id
    }

    pub open spec fn has_language(&self, name: Seq<char>) -> bool {
        exists|i: int| 0 <= i < self.languages@.len() && #[trigger] self.languages@[i].name@ == name
    }

    /// `i` is the position of the first problem with id `id`.
    pub open spec fn first_problem(&self, id: u32, i: int) -> bool {
        &&& 0 <= i < self.problems@.len()
        &&& self.problems@[i].id == id
        &&& forall|j: int| 0 <= j < i ==> #[trigger] self.problems@[j].id != id
    }

    /// The position of the problem with id `id` (the first, when several
    /// share it).
    pub open spec fn problem_pos(&self, id: u32) -> int {
        choose|i: int| self.first_problem(id, i)
    }

    /// Every problem of the catalog is well formed.
    pub open spec fn wf(&self) -> bool {
        forall|i: int| 0 <= i < self.problems@.len() ==> (#[trigger] self.problems@[i]).wf()
    }

    /// The position of the first problem with id `id`, if any.
    pub fn problem_index(&self, id: u32) -> (r: Option<usize>)
        ensures
            r is None <==> !self.has_problem(id),
            r matches Some(i) ==> self.first_problem(id, i as int) && i == self.problem_pos(id),
    {
        let mut i: usize = 0;
        while i < self.problems.len()
            invariant
                i <= self.problems@.len(),
                forall|j: int| 0 <= j < i ==> self.problems@[j].id != id,
            decreases self.problems@.len() - i,
        {
            if self.problems[i].id == id {
                proof {
                    assert(self.first_problem(id, i as int));
                    let k = self.problem_pos(id);
                    if k < i {
                        assert(self.problems@[k].id != id);
                    } else if k > i {
                        assert(self.problems@[i as int].id != id);
                    }
                }
                return Some(i);
            }
            i = i + 1;
        }
        None
    }

    /// The position of the first language named `name`, if any.
    pub fn language_index(&self, name: &String) -> (r: Option<usize>)
        ensures
            r is None <==> !self.has_language(name@),
            r matches Some(i) ==> i < self.languages@.len() && self.languages@[i as int].name@
                == name@ && forall|j: int| 0 <= j < i ==> self.languages@[j].name@ != name@,
    {
        let mut i: usize = 0;
        while i < self.languages.len()
            invariant
                i <= self.languages@.len(),
                forall|j: int| 0 <= j < i ==> self.languages@[j].name@ != name@,
            decreases self.languages@.len() - i,
        {
            if self.languages[i].name == *name {
                return Some(i);
            }
            i = i + 1;
        }
        None
    }
}

/// The texts of a list of words.
pub open spec fn words(args: Seq<String>) -> Seq<Seq<char>> {
    args.map_values(|s: String| s@)
}

/// The index of the first word from index `i` on that is `w`, or the
/// length of the list when there is none.
pub open spec fn word_index_from(ws: Seq<Seq<char>>, w: Seq<char>, i: int) -> int
    decreases ws.len() - i,
{
    if i >= ws.len() {
        ws.len() as int
    } else if ws[i] == w {
        i
    } else {
        word_index_from(ws, w, i + 1)
    }
}

/// `ws` with its first word equal to `from` set to `to`; `ws` itself when
/// no word is `from`.
pub open spec fn replace_word(ws: Seq<Seq<char>>, from: Seq<char>, to: Seq<char>) -> Seq<Seq<char>> {
    let k = word_index_from(ws, from, 0);
    if k < ws.len() {
        ws.update(k, to)
    } else {
        ws
    }
}

/// Some word of the list is `w`.
pub open spec fn has_word(ws: Seq<Seq<char>>, w: Seq<char>) -> bool {
    word_index_from(ws, w, 0) < ws.len()
}

/// A copy of `args` word for word.
pub fn copy_words(args: &Vec<String>) -> (r: Vec<String>)
    ensures
        words(r@) == words(args@),
{
    let mut r: Vec<String> = Vec::new();
    let mut i: usize = 0;
    while i < args.len()
        invariant
            i <= args@.len(),
            r@.len() == i,
            forall|j: int| 0 <= j < i ==> #[trigger] r@[j]@ == args@[j]@,
        decreases args@.len() - i,
    {
        r.push(args[i].clone());
        i = i + 1;
    }
    assert(words(r@) =~= words(args@));
    r
}

/// Sets the first entry of `args` equal to `from` to `to`; tells whether
/// there was one.
pub fn replace_first(args: &mut Vec<String>, from: &str, to: &str) -> (hit: bool)
    ensures
        hit == has_word(words(old(args)@), from@),
        words(final(args)@) == replace_word(words(old(args)@), from@, to@),
{
    let key = String::from_str(from);
    let ghost ws = words(args@);
    let mut i: usize = 0;
    while i < args.len()
        invariant
            i <= args@.len(),
            args@ == old(args)@,
            ws == words(old(args)@),
            key@ == from@,
            word_index_from(ws, from@, 0) == word_index_from(ws, from@, i as int),
        decreases args@.len() - i,
    {
        if args[i] == key {
            args.set(i, String::from_str(to));
            assert(words(args@) =~= ws.update(i as int, to@));
            return true;
        }
        i = i + 1;
    }
    false
}

impl Language {
    /// Sets the first command word equal to `before` to `after`; tells
    /// whether there was one.
    pub fn replace(&mut self, before: &str, after: &str) -> (hit: bool)
        ensures
            hit == has_word(words(old(self).command@), before@),
            words(final(self).command@) == replace_word(words(old(self).command@), before@, after@),
            final(self).name == old(self).name,
            final(self).file_name == old(self).file_name,
    {
        replace_first(&mut self.command, before, after)
    }
}

} // verus!
