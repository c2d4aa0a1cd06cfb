//! The routing plan model: target definitions, destinations, and the
//! validated mapping from each candidate commit to a destination.

use vstd::prelude::*;
use vstd::string::StringExecFns;
use crate::cli::Args;
use crate::text::{
    is_space, trim_spec, trim, split_lines_spec, split_lines, splitn3_spec, splitn3,
    parse_u32_spec, parse_u32, str_starts_with, str_eq, dec_str, u32_to_string,
};

verus! {

/// One target definition: a small positive alias and a branch name.
#[derive(Debug)]
pub struct TargetDef {
    pub alias: u32,
    pub branch: String,
}

pub struct TargetDefV {
    pub alias: u32,
    pub branch: Seq<char>,
}

impl View for TargetDef {
    type V = TargetDefV;

    open spec fn view(&self) -> TargetDefV {
        TargetDefV { alias: self.alias, branch: self.branch@ }
    }
}

impl DeepView for TargetDef {
    type V = TargetDefV;

    open spec fn deep_view(&self) -> TargetDefV {
        self@
    }
}

/// The ordered list of target definitions, aliases assigned in first-seen
/// order starting at 1.
#[derive(Debug)]
pub struct TargetDefs {
    pub targets: Vec<TargetDef>,
}

/// One candidate commit: full identifier, short display form, one-line summary.
#[derive(Debug)]
pub struct CommitInfo {
    pub oid: String,
    pub short: String,
    pub summary: String,
}

pub struct CommitInfoV {
    pub oid: Seq<char>,
    pub short: Seq<char>,
    pub summary: Seq<char>,
}

impl View for CommitInfo {
    type V = CommitInfoV;

    open spec fn view(&self) -> CommitInfoV {
        CommitInfoV { oid: self.oid@, short: self.short@, summary: self.summary@ }
    }
}

impl DeepView for CommitInfo {
    type V = CommitInfoV;

    open spec fn deep_view(&self) -> CommitInfoV {
        self@
    }
}

/// Where one commit goes.
#[derive(Debug)]
pub enum Dest {
    Branch(String),
    Current,
    Drop,
}

pub enum DestV {
    Branch(Seq<char>),
    Current,
    Drop,
}

impl View for Dest {
    type V = DestV;

    open spec fn view(&self) -> DestV {
        match self {
            Dest::Branch(b) => DestV::Branch(b@),
            Dest::Current => DestV::Current,
            Dest::Drop => DestV::Drop,
        }
    }
}

impl DeepView for Dest {
    type V = DestV;

    open spec fn deep_view(&self) -> DestV {
        self@
    }
}

/// One commit routed to one destination.
#[derive(Debug)]
pub struct Assignment {
    pub oid: String,
    pub dest: Dest,
}

pub struct AssignmentV {
    pub oid: Seq<char>,
    pub dest: DestV,
}

impl View for Assignment {
    type V = AssignmentV;

    open spec fn view(&self) -> AssignmentV {
        AssignmentV { oid: self.oid@, dest: self.dest@ }
    }
}

impl DeepView for Assignment {
    type V = AssignmentV;

    open spec fn deep_view(&self) -> AssignmentV {
        self@
    }
}

/// The validated routing plan: one assignment per candidate commit, in
/// declaration order.
#[derive(Debug)]
pub struct RoutingPlan {
    pub assignments: Vec<Assignment>,
}

/// The trimmed, non-blank, first-occurrence-deduplicated branch names of
/// `names`, in order.
pub open spec fn dedup_targets(names: Seq<Seq<char>>) -> Seq<Seq<char>>
    decreases names.len(),
{
    if names.len() == 0 {
        Seq::empty()
    } else {
        let p = dedup_targets(names.drop_last());
        let t = trim_spec(names.last());
        if t.len() == 0 || p.contains(t) {
            p
        } else {
            p.push(t)
        }
    }
}

pub proof fn lemma_dedup_targets_len(names: Seq<Seq<char>>)
    ensures
        dedup_targets(names).len() <= names.len(),
    decreases names.len(),
{
    if names.len() > 0 {
        lemma_dedup_targets_len(names.drop_last());
    }
}

/// Whether some entry of `v` holds exactly the characters of `s`.
pub(crate) fn vec_contains_string(v: &Vec<String>, s: &String) -> (r: bool)
    ensures
        r == v.deep_view().contains(s@),
{
    let mut k: usize = 0;
    while k < v.len()
        invariant
            k <= v.len(),
            forall|j: int| 0 <= j < k ==> v.deep_view()[j] != s@,
        decreases v.len() - k,
    {
        let hit = v[k].eq(s);
        proof {
            assert(v.deep_view()[k as int] == v@[k as int].deep_view());
        }
        if hit {
            return true;
        }
        k += 1;
    }
    false
}

impl TargetDefs {
    /// Combines flag and positional target names: trims each, drops blanks,
    /// keeps the first occurrence of each name, and numbers the survivors
    /// from 1 upward.
    pub fn from_args(args: &Args) -> (r: TargetDefs)
        requires
            args.targets@.len() + args.positional_targets@.len() <= u32::MAX,
        ensures
            ({
                let d = dedup_targets(
                    args.targets.deep_view() + args.positional_targets.deep_view(),
                );
                &&& r.targets@.len() == d.len()
                &&& forall|i: int|
                    0 <= i < d.len() ==> #[trigger] r.targets@[i]@ == (TargetDefV {
                        alias: (i + 1) as u32,
                        branch: d[i],
                    })
            }),
    {
        let ghost all = args.targets.deep_view() + args.positional_targets.deep_view();
        let mut combined: Vec<String> = Vec::new();
        let mut k: usize = 0;
        proof {
            assert(all.take(0) =~= Seq::<Seq<char>>::empty());
        }
        while k < args.targets.len()
            invariant
                k <= args.targets@.len(),
                all == args.targets.deep_view() + args.positional_targets.deep_view(),
                combined.deep_view() == dedup_targets(all.take(k as int)),
            decreases args.targets@.len() - k,
        {
            let t = trim(args.targets[k].as_str());
            proof {
                let pre = all.take(k as int);
                assert(all.take(k + 1).drop_last() =~= pre);
                assert(all.take(k + 1).last() == args.targets.deep_view()[k as int]);
            }
            let ghost before = combined.deep_view();
            if t.unicode_len() > 0 && !vec_contains_string(&combined, &t) {
                combined.push(t);
                proof {
                    assert(combined.deep_view() =~= before.push(
                        dedup_targets(all.take(k + 1)).last(),
                    ));
                }
            }
            k += 1;
        }
        let mut m: usize = 0;
        while m < args.positional_targets.len()
            invariant
                m <= args.positional_targets@.len(),
                all == args.targets.deep_view() + args.positional_targets.deep_view(),
                combined.deep_view() == dedup_targets(
                    all.take(args.targets@.len() + m),
                ),
            decreases args.positional_targets@.len() - m,
        {
            let ghost nt: int = args.targets@.len() as int;
            let t = trim(args.positional_targets[m].as_str());
            proof {
                let pre = all.take(nt + m);
                assert(all.take(nt + m + 1).drop_last() =~= pre);
                assert(all.take(nt + m + 1).last() == args.positional_targets.deep_view()[
                    m as int
                ]);
            }
            let ghost before = combined.deep_view();
            if t.unicode_len() > 0 && !vec_contains_string(&combined, &t) {
                combined.push(t);
                proof {
                    assert(combined.deep_view() =~= before.push(
                        dedup_targets(all.take(nt + m + 1)).last(),
                    ));
                }
            }
            m += 1;
        }
        proof {
            assert(all.take(all.len() as int) =~= all);
            lemma_dedup_targets_len(all);
        }
        let mut targets: Vec<TargetDef> = Vec::new();
        let mut i: usize = 0;
        while i < combined.len()
            invariant
                i <= combined@.len(),
                combined@.len() <= u32::MAX,
                targets@.len() == i,
                forall|j: int|
                    0 <= j < i ==> #[trigger] targets@[j]@ == (TargetDefV {
                        alias: (j + 1) as u32,
                        branch: combined.deep_view()[j],
                    }),
            decreases combined@.len() - i,
        {
            let alias: u32 = (i as u32) + 1;
            targets.push(TargetDef { alias, branch: combined[i].clone() });
            i += 1;
        }
        TargetDefs { targets }
    }
}

/// Why a routing specification was rejected.
#[derive(Debug)]
pub enum ParseError {
    /// A `target` line with no alias token.
    TargetMissingAlias,
    /// A `target` line whose alias token is not an unsigned integer.
    TargetBadAlias(String),
    /// A `target` line with no branch name.
    TargetMissingBranch,
    /// An assignment line with no commit token.
    MissingSha,
    /// An assignment line with an empty subject; carries the offending line.
    MissingSubject(String),
    /// A commit token matching no candidate commit.
    UnknownCommit(String),
    /// A commit assigned twice.
    DuplicateCommit(String),
    /// A numeric destination naming no known alias.
    UnknownAlias(u32),
    /// The number of assignments differs from the number of candidates.
    IncompleteAssignment,
}

pub enum ParseErrorV {
    TargetMissingAlias,
    TargetBadAlias(Seq<char>),
    TargetMissingBranch,
    MissingSha,
    MissingSubject(Seq<char>),
    UnknownCommit(Seq<char>),
    DuplicateCommit(Seq<char>),
    UnknownAlias(u32),
    IncompleteAssignment,
}

impl View for ParseError {
    type V = ParseErrorV;

    open spec fn view(&self) -> ParseErrorV {
        match self {
            ParseError::TargetMissingAlias => ParseErrorV::TargetMissingAlias,
            ParseError::TargetBadAlias(t) => ParseErrorV::TargetBadAlias(t@),
            ParseError::TargetMissingBranch => ParseErrorV::TargetMissingBranch,
            ParseError::MissingSha => ParseErrorV::MissingSha,
            ParseError::MissingSubject(t) => ParseErrorV::MissingSubject(t@),
            ParseError::UnknownCommit(t) => ParseErrorV::UnknownCommit(t@),
            ParseError::DuplicateCommit(t) => ParseErrorV::DuplicateCommit(t@),
            ParseError::UnknownAlias(n) => ParseErrorV::UnknownAlias(*n),
            ParseError::IncompleteAssignment => ParseErrorV::IncompleteAssignment,
        }
    }
}

/// The words split by runs of whitespace, with `cur` the token prefix
/// already read.
pub open spec fn split_ws_partial(s: Seq<char>, cur: Seq<char>) -> Seq<Seq<char>>
    decreases s.len(),
{
    if s.len() == 0 {
        if cur.len() == 0 {
            Seq::empty()
        } else {
            seq![cur]
        }
    } else if is_space(s[0]) {
        if cur.len() == 0 {
            split_ws_partial(s.skip(1), Seq::empty())
        } else {
            seq![cur] + split_ws_partial(s.skip(1), Seq::empty())
        }
    } else {
        split_ws_partial(s.skip(1), cur.push(s[0]))
    }
}

/// The whitespace-separated words of `s`.
pub open spec fn split_ws_spec(s: Seq<char>) -> Seq<Seq<char>> {
    split_ws_partial(s, Seq::empty())
}

/// Splits `s` into whitespace-separated words.
pub fn split_ws(s: &str) -> (r: Vec<String>)
    ensures
        r.deep_view() == split_ws_spec(s@),
{
    let n = s.unicode_len();
    let mut r: Vec<String> = Vec::new();
    let mut i: usize = 0;
    let mut tok_start: usize = 0;
    let mut in_tok = false;
    proof {
        assert(s@.skip(0) =~= s@);
        assert(r.deep_view() =~= Seq::<Seq<char>>::empty());
    }
    while i < n
        invariant
            i <= n,
            n == s@.len(),
            in_tok ==> tok_start < i,
            in_tok ==> split_ws_spec(s@) == r.deep_view() + split_ws_partial(
                s@.skip(i as int),
                s@.subrange(tok_start as int, i as int),
            ),
            !in_tok ==> split_ws_spec(s@) == r.deep_view() + split_ws_partial(
                s@.skip(i as int),
                Seq::empty(),
            ),
            in_tok ==> s@.subrange(tok_start as int, i as int).len() > 0,
        decreases n - i,
    {
        let c = s.get_char(i);
        proof {
            assert(s@.skip(i as int)[0] == s@[i as int]);
            assert(s@.skip(i as int).skip(1) =~= s@.skip(i + 1));
        }
        if c == ' ' || c == '\t' || c == '\r' || c == '\n' {
            if in_tok {
                let tok = s.substring_char(tok_start, i).to_owned();
                proof {
                    assert(tok@ =~= s@.subrange(tok_start as int, i as int));
                    assert(r.deep_view().push(tok@) =~= r.deep_view() + seq![tok@]);
                    assert((r.deep_view() + seq![tok@]) + split_ws_partial(
                        s@.skip(i + 1),
                        Seq::empty(),
                    ) =~= r.deep_view() + (seq![tok@] + split_ws_partial(
                        s@.skip(i + 1),
                        Seq::empty(),
                    )));
                }
                let ghost before = r.deep_view();
                r.push(tok);
                proof {
                    assert(r.deep_view() =~= before.push(tok@));
                }
                in_tok = false;
            }
        } else {
            if !in_tok {
                tok_start = i;
                in_tok = true;
                proof {
                    assert(s@.subrange(i as int, i + 1) =~= Seq::empty().push(s@[i as int]));
                }
            } else {
                proof {
                    assert(s@.subrange(tok_start as int, i + 1) =~= s@.subrange(
                        tok_start as int,
                        i as int,
                    ).push(s@[i as int]));
                }
            }
        }
        i += 1;
    }
    proof {
        assert(s@.skip(n as int) =~= Seq::<char>::empty());
    }
    if in_tok {
        let tok = s.substring_char(tok_start, n).to_owned();
        proof {
            assert(tok@ =~= s@.subrange(tok_start as int, n as int));
            assert(r.deep_view().push(tok@) =~= r.deep_view() + seq![tok@]);
        }
        let ghost before = r.deep_view();
        r.push(tok);
        proof {
            assert(r.deep_view() =~= before.push(tok@));
        }
    } else {
        proof {
            assert(r.deep_view() + Seq::<Seq<char>>::empty() =~= r.deep_view());
        }
    }
    r
}

/// A line the parser ignores: blank, or starting with `#`.
pub open spec fn is_comment(t: Seq<char>) -> bool {
    t.len() == 0 || t[0] == '#'
}

/// A line that (re)defines a target alias.
pub open spec fn is_target_line(t: Seq<char>) -> bool {
    "target "@.is_prefix_of(t)
}

/// The branch an alias currently resolves to: later definitions override
/// earlier ones.
pub open spec fn lookup_alias(entries: Seq<TargetDefV>, n: u32) -> Option<Seq<char>>
    decreases entries.len(),
{
    if entries.len() == 0 {
        None
    } else if entries.last().alias == n {
        Some(entries.last().branch)
    } else {
        lookup_alias(entries.drop_last(), n)
    }
}

/// Finds the branch `n` resolves to in the alias table.
fn lookup_alias_exec(entries: &Vec<TargetDef>, n: u32) -> (r: Option<String>)
    ensures
        (match (r, lookup_alias(entries.deep_view(), n)) {
            (Some(a), Some(b)) => a@ == b,
            (None, None) => true,
            _ => false,
        }),
{
    let ghost dv = entries.deep_view();
    let mut k: usize = entries.len();
    proof {
        assert(dv.take(k as int) =~= dv);
    }
    while k > 0
        invariant
            k <= entries@.len(),
            dv == entries.deep_view(),
            lookup_alias(dv, n) == lookup_alias(dv.take(k as int), n),
        decreases k,
    {
        k -= 1;
        proof {
            assert(dv.take(k + 1).last() == dv[k as int]);
            assert(dv.take(k + 1).drop_last() =~= dv.take(k as int));
            assert(dv[k as int] == entries@[k as int]@);
        }
        if entries[k].alias == n {
            return Some(entries[k].branch.clone());
        }
    }
    proof {
        assert(dv.take(0) =~= Seq::<TargetDefV>::empty());
    }
    None
}

/// The first candidate whose short form is exactly `tok`.
pub open spec fn find_short(commits: Seq<CommitInfoV>, tok: Seq<char>) -> Option<Seq<char>>
    decreases commits.len(),
{
    if commits.len() == 0 {
        None
    } else if commits[0].short == tok {
        Some(commits[0].oid)
    } else {
        find_short(commits.skip(1), tok)
    }
}

/// The first candidate whose full identifier begins with `tok`.
pub open spec fn find_prefix(commits: Seq<CommitInfoV>, tok: Seq<char>) -> Option<Seq<char>>
    decreases commits.len(),
{
    if commits.len() == 0 {
        None
    } else if tok.is_prefix_of(commits[0].oid) {
        Some(commits[0].oid)
    } else {
        find_prefix(commits.skip(1), tok)
    }
}

/// How a commit token resolves: exact short-form match first, then a prefix
/// of a full identifier, at least seven characters long.
pub open spec fn resolve_commit(commits: Seq<CommitInfoV>, tok: Seq<char>) -> Option<Seq<char>> {
    match find_short(commits, tok) {
        Some(oid) => Some(oid),
        None => if tok.len() >= 7 {
            find_prefix(commits, tok)
        } else {
            None
        },
    }
}

/// Resolves a commit token against the candidate commits.
fn resolve_commit_exec(commits: &Vec<CommitInfo>, tok: &String) -> (r: Option<String>)
    ensures
        (match (r, resolve_commit(commits.deep_view(), tok@)) {
            (Some(a), Some(b)) => a@ == b,
            (None, None) => true,
            _ => false,
        }),
{
    let ghost dv = commits.deep_view();
    let mut k: usize = 0;
    proof {
        assert(dv.skip(0) =~= dv);
    }
    while k < commits.len()
        invariant
            k <= commits@.len(),
            dv == commits.deep_view(),
            find_short(dv, tok@) == find_short(dv.skip(k as int), tok@),
        decreases commits@.len() - k,
    {
        proof {
            assert(dv.skip(k as int)[0] == dv[k as int]);
            assert(dv.skip(k as int).skip(1) =~= dv.skip(k + 1));
            assert(dv[k as int] == commits@[k as int]@);
        }
        if str_eq(commits[k].short.as_str(), tok.as_str()) {
            return Some(commits[k].oid.clone());
        }
        k += 1;
    }
    proof {
        assert(dv.skip(commits@.len() as int) =~= Seq::<CommitInfoV>::empty());
    }
    if tok.unicode_len() < 7 {
        return None;
    }
    let mut k: usize = 0;
    proof {
        assert(dv.skip(0) =~= dv);
    }
    while k < commits.len()
        invariant
            k <= commits@.len(),
            dv == commits.deep_view(),
            find_prefix(dv, tok@) == find_prefix(dv.skip(k as int), tok@),
            find_short(dv, tok@) is None,
            tok@.len() >= 7,
        decreases commits@.len() - k,
    {
        proof {
            assert(dv.skip(k as int)[0] == dv[k as int]);
            assert(dv.skip(k as int).skip(1) =~= dv.skip(k + 1));
            assert(dv[k as int] == commits@[k as int]@);
        }
        if str_starts_with(commits[k].oid.as_str(), tok.as_str()) {
            return Some(commits[k].oid.clone());
        }
        k += 1;
    }
    proof {
        assert(dv.skip(commits@.len() as int) =~= Seq::<CommitInfoV>::empty());
    }
    None
}

/// How a destination token resolves: the word `current`, a known or unknown
/// numeric alias, or a literal branch name.
pub open spec fn parse_dest_spec(
    tok: Seq<char>,
    entries: Seq<TargetDefV>,
    keep_current: bool,
) -> Result<DestV, ParseErrorV> {
    if tok == "current"@ {
        if keep_current {
            Ok(DestV::Current)
        } else {
            Ok(DestV::Drop)
        }
    } else {
        match parse_u32_spec(tok) {
            Some(n) => match lookup_alias(entries, n) {
                Some(b) => Ok(DestV::Branch(b)),
                None => Err(ParseErrorV::UnknownAlias(n)),
            },
            None => Ok(DestV::Branch(tok)),
        }
    }
}

/// Resolves one destination token against the current alias table.
pub fn parse_dest(token: &str, aliases: &Vec<TargetDef>, keep_current: bool) -> (r: Result<
    Dest,
    ParseError,
>)
    ensures
        (match (r, parse_dest_spec(token@, aliases.deep_view(), keep_current)) {
            (Ok(d), Ok(dv)) => d@ == dv,
            (Err(e), Err(ev)) => e@ == ev,
            _ => false,
        }),
{
    if str_eq(token, "current") {
        if keep_current {
            Ok(Dest::Current)
        } else {
            Ok(Dest::Drop)
        }
    } else {
        match parse_u32(token) {
            Some(n) => match lookup_alias_exec(aliases, n) {
                Some(b) => Ok(Dest::Branch(b)),
                None => Err(ParseError::UnknownAlias(n)),
            },
            None => Ok(Dest::Branch(token.to_owned())),
        }
    }
}

/// Whether some assignment in `acc` already routes `oid`.
pub open spec fn has_oid(acc: Seq<AssignmentV>, oid: Seq<char>) -> bool {
    exists|j: int| 0 <= j < acc.len() && acc[j].oid == oid
}

fn contains_oid(acc: &Vec<Assignment>, oid: &String) -> (r: bool)
    ensures
        r == has_oid(acc.deep_view(), oid@),
{
    let ghost dv = acc.deep_view();
    let mut k: usize = 0;
    while k < acc.len()
        invariant
            k <= acc@.len(),
            dv == acc.deep_view(),
            forall|j: int| 0 <= j < k ==> dv[j].oid != oid@,
        decreases acc@.len() - k,
    {
        proof {
            assert(dv[k as int] == acc@[k as int]@);
        }
        if str_eq(acc[k].oid.as_str(), oid.as_str()) {
            assert(dv[k as int].oid == oid@);
            return true;
        }
        k += 1;
    }
    false
}

/// How one `target` line is read: the second word is the alias, the third
/// the branch it shall denote.
pub open spec fn parse_target_spec(t: Seq<char>) -> Result<TargetDefV, ParseErrorV> {
    let toks = split_ws_spec(t);
    if toks.len() < 2 {
        Err(ParseErrorV::TargetMissingAlias)
    } else {
        match parse_u32_spec(toks[1]) {
            Some(n) => if toks.len() < 3 {
                Err(ParseErrorV::TargetMissingBranch)
            } else {
                Ok(TargetDefV { alias: n, branch: toks[2] })
            },
            None => Err(ParseErrorV::TargetBadAlias(toks[1])),
        }
    }
}

/// How one assignment line is read against the current alias table, the
/// assignments so far, and the candidate commits.
pub open spec fn parse_assign_spec(
    t: Seq<char>,
    entries: Seq<TargetDefV>,
    acc: Seq<AssignmentV>,
    commits: Seq<CommitInfoV>,
    keep_current: bool,
) -> Result<AssignmentV, ParseErrorV> {
    let (dtok, stok_opt, subject) = splitn3_spec(t);
    match stok_opt {
        None => Err(ParseErrorV::MissingSha),
        Some(stok) => if subject.len() == 0 {
            Err(ParseErrorV::MissingSubject(t))
        } else {
            match resolve_commit(commits, stok) {
                None => Err(ParseErrorV::UnknownCommit(stok)),
                Some(oid) => if has_oid(acc, oid) {
                    Err(ParseErrorV::DuplicateCommit(stok))
                } else {
                    match parse_dest_spec(dtok, entries, keep_current) {
                        Err(e) => Err(e),
                        Ok(d) => Ok(AssignmentV { oid, dest: d }),
                    }
                },
            }
        },
    }
}

/// The parser's running state: the alias table and the assignments so far.
pub struct ParseStateV {
    pub entries: Seq<TargetDefV>,
    pub acc: Seq<AssignmentV>,
}

/// Runs the line-by-line reading of the routing specification: comments are
/// skipped, `target` lines extend the alias table, every other line must be
/// a valid assignment.
pub open spec fn run_lines(
    lines: Seq<Seq<char>>,
    st: ParseStateV,
    commits: Seq<CommitInfoV>,
    keep_current: bool,
) -> Result<ParseStateV, ParseErrorV>
    decreases lines.len(),
{
    if lines.len() == 0 {
        Ok(st)
    } else {
        let t = trim_spec(lines[0]);
        let rest = lines.skip(1);
        if is_comment(t) {
            run_lines(rest, st, commits, keep_current)
        } else if is_target_line(t) {
            match parse_target_spec(t) {
                Err(e) => Err(e),
                Ok(td) => run_lines(
                    rest,
                    ParseStateV { entries: st.entries.push(td), acc: st.acc },
                    commits,
                    keep_current,
                ),
            }
        } else {
            match parse_assign_spec(t, st.entries, st.acc, commits, keep_current) {
                Err(e) => Err(e),
                Ok(a) => run_lines(
                    rest,
                    ParseStateV { entries: st.entries, acc: st.acc.push(a) },
                    commits,
                    keep_current,
                ),
            }
        }
    }
}

/// What parsing a whole routing specification yields: the assignments in
/// declaration order, or the first error; a count differing from the
/// candidate count is an error of its own.
pub open spec fn parse_spec(
    text: Seq<char>,
    commits: Seq<CommitInfoV>,
    targets: Seq<TargetDefV>,
    keep_current: bool,
) -> Result<Seq<AssignmentV>, ParseErrorV> {
    match run_lines(
        split_lines_spec(text),
        ParseStateV { entries: targets, acc: Seq::empty() },
        commits,
        keep_current,
    ) {
        Err(e) => Err(e),
        Ok(st) => if st.acc.len() == commits.len() {
            Ok(st.acc)
        } else {
            Err(ParseErrorV::IncompleteAssignment)
        },
    }
}

/// Parses the routing specification text into a validated plan, exactly as
/// `parse_spec` describes.
pub fn parse_routing_file(
    text: &str,
    commits: &Vec<CommitInfo>,
    targets: &TargetDefs,
    keep_current: bool,
) -> (r: Result<RoutingPlan, ParseError>)
    ensures
        (match (r, parse_spec(
            text@,
            commits.deep_view(),
            targets.targets.deep_view(),
            keep_current,
        )) {
            (Ok(p), Ok(acc)) => p.assignments.deep_view() == acc,
            (Err(e), Err(ev)) => e@ == ev,
            _ => false,
        }),
{
    let ghost cd = commits.deep_view();
    let ghost init = ParseStateV { entries: targets.targets.deep_view(), acc: Seq::empty() };
    let lines = split_lines(text);
    let ghost ls = lines.deep_view();

    let mut entries: Vec<TargetDef> = Vec::new();
    let mut k: usize = 0;
    while k < targets.targets.len()
        invariant
            k <= targets.targets@.len(),
            entries.deep_view() =~= targets.targets.deep_view().take(k as int),
        decreases targets.targets@.len() - k,
    {
        let ghost before = entries.deep_view();
        entries.push(TargetDef {
            alias: targets.targets[k].alias,
            branch: targets.targets[k].branch.clone(),
        });
        proof {
            assert(entries.deep_view() =~= before.push(targets.targets@[k as int]@));
            assert(targets.targets.deep_view().take(k + 1) =~= targets.targets.deep_view().take(
                k as int,
            ).push(targets.targets.deep_view()[k as int]));
        }
        k += 1;
    }
    proof {
        assert(targets.targets.deep_view().take(targets.targets@.len() as int)
            =~= targets.targets.deep_view());
        assert(ls.skip(0) =~= ls);
        assert(entries.deep_view() == init.entries);
    }

    let mut acc: Vec<Assignment> = Vec::new();
    let mut li: usize = 0;
    proof {
        assert(acc.deep_view() =~= Seq::<AssignmentV>::empty());
    }
    while li < lines.len()
        invariant
            li <= lines@.len(),
            ls == lines.deep_view(),
            ls == split_lines_spec(text@),
            cd == commits.deep_view(),
            init == (ParseStateV {
                entries: targets.targets.deep_view(),
                acc: Seq::<AssignmentV>::empty(),
            }),
            run_lines(ls, init, cd, keep_current) == run_lines(
                ls.skip(li as int),
                ParseStateV { entries: entries.deep_view(), acc: acc.deep_view() },
                cd,
                keep_current,
            ),
        decreases lines@.len() - li,
    {
        let ghost st_now = ParseStateV { entries: entries.deep_view(), acc: acc.deep_view() };
        let trimmed = trim(lines[li].as_str());
        proof {
            assert(lines.deep_view()[li as int] == lines@[li as int]@);
            assert(ls.skip(li as int)[0] == ls[li as int]);
            assert(ls.skip(li as int).skip(1) =~= ls.skip(li + 1));
            assert(trimmed@ == trim_spec(ls[li as int]));
        }
        let tn = trimmed.unicode_len();
        if tn == 0 || trimmed.get_char(0) == '#' {
            li += 1;
            continue;
        }
        assert(!is_comment(trimmed@));
        if str_starts_with(trimmed.as_str(), "target ") {
            let toks = split_ws(trimmed.as_str());
            if toks.len() < 2 {
                return Err(ParseError::TargetMissingAlias);
            }
            proof {
                assert(toks.deep_view()[1] == toks@[1]@);
            }
            match parse_u32(toks[1].as_str()) {
                None => {
                    return Err(ParseError::TargetBadAlias(toks[1].clone()));
                },
                Some(n) => {
                    if toks.len() < 3 {
                        return Err(ParseError::TargetMissingBranch);
                    }
                    proof {
                        assert(toks.deep_view()[2] == toks@[2]@);
                    }
                    let ghost before = entries.deep_view();
                    entries.push(TargetDef { alias: n, branch: toks[2].clone() });
                    proof {
                        assert(entries.deep_view() =~= before.push(
                            TargetDefV { alias: n, branch: toks@[2]@ },
                        ));
                    }
                },
            }
        } else {
            let (dtok, stok_opt, subject) = splitn3(trimmed.as_str());
            match stok_opt {
                None => {
                    return Err(ParseError::MissingSha);
                },
                Some(stok) => {
                    if subject.unicode_len() == 0 {
                        return Err(ParseError::MissingSubject(trimmed));
                    }
                    match resolve_commit_exec(commits, &stok) {
                        None => {
                            return Err(ParseError::UnknownCommit(stok));
                        },
                        Some(oid) => {
                            if contains_oid(&acc, &oid) {
                                return Err(ParseError::DuplicateCommit(stok));
                            }
                            match parse_dest(dtok.as_str(), &entries, keep_current) {
                                Err(e) => {
                                    return Err(e);
                                },
                                Ok(d) => {
                                    let ghost before = acc.deep_view();
                                    let ghost av = AssignmentV { oid: oid@, dest: d@ };
                                    acc.push(Assignment { oid, dest: d });
                                    proof {
                                        assert(acc.deep_view() =~= before.push(av));
                                    }
                                },
                            }
                        },
                    }
                },
            }
        }
        li += 1;
    }
    proof {
        assert(ls.skip(lines@.len() as int) =~= Seq::<Seq<char>>::empty());
    }
    if acc.len() != commits.len() {
        return Err(ParseError::IncompleteAssignment);
    }
    Ok(RoutingPlan { assignments: acc })
}

proof fn lemma_find_short_mem(commits: Seq<CommitInfoV>, tok: Seq<char>)
    ensures
        find_short(commits, tok) matches Some(o) ==> exists|j: int|
            0 <= j < commits.len() && (#[trigger] commits[j]).oid == o,
    decreases commits.len(),
{
    if commits.len() > 0 && !(commits[0].short == tok) {
        lemma_find_short_mem(commits.skip(1), tok);
        if let Some(o) = find_short(commits, tok) {
            let j = choose|j: int|
                0 <= j < commits.skip(1).len() && (#[trigger] commits.skip(1)[j]).oid == o;
            assert(commits[j + 1].oid == o);
        }
    }
}

proof fn lemma_find_prefix_mem(commits: Seq<CommitInfoV>, tok: Seq<char>)
    ensures
        find_prefix(commits, tok) matches Some(o) ==> exists|j: int|
            0 <= j < commits.len() && (#[trigger] commits[j]).oid == o,
    decreases commits.len(),
{
    if commits.len() > 0 && !tok.is_prefix_of(commits[0].oid) {
        lemma_find_prefix_mem(commits.skip(1), tok);
        if let Some(o) = find_prefix(commits, tok) {
            let j = choose|j: int|
                0 <= j < commits.skip(1).len() && (#[trigger] commits.skip(1)[j]).oid == o;
            assert(commits[j + 1].oid == o);
        }
    }
}

/// A resolved commit token names one of the candidate commits.
pub proof fn lemma_resolve_mem(commits: Seq<CommitInfoV>, tok: Seq<char>)
    ensures
        resolve_commit(commits, tok) matches Some(o) ==> exists|j: int|
            0 <= j < commits.len() && (#[trigger] commits[j]).oid == o,
{
    lemma_find_short_mem(commits, tok);
    lemma_find_prefix_mem(commits, tok);
}

/// The well-formedness the parser maintains of its assignment list: each
/// assigned identifier names a candidate commit, and no identifier repeats.
pub open spec fn acc_wf(acc: Seq<AssignmentV>, commits: Seq<CommitInfoV>) -> bool {
    &&& forall|i: int|
        0 <= i < acc.len() ==> exists|j: int|
            0 <= j < commits.len() && (#[trigger] acc[i]).oid == commits[j].oid
    &&& forall|i1: int, i2: int|
        0 <= i1 < i2 < acc.len() ==> (#[trigger] acc[i1]).oid != (#[trigger] acc[i2]).oid
}

proof fn lemma_run_lines_wf(
    lines: Seq<Seq<char>>,
    st: ParseStateV,
    commits: Seq<CommitInfoV>,
    keep_current: bool,
)
    requires
        acc_wf(st.acc, commits),
    ensures
        run_lines(lines, st, commits, keep_current) matches Ok(st2) ==> acc_wf(st2.acc, commits),
    decreases lines.len(),
{
    if lines.len() > 0 {
        let t = trim_spec(lines[0]);
        let rest = lines.skip(1);
        if is_comment(t) {
            lemma_run_lines_wf(rest, st, commits, keep_current);
        } else if is_target_line(t) {
            match parse_target_spec(t) {
                Err(_) => {},
                Ok(td) => {
                    lemma_run_lines_wf(
                        rest,
                        ParseStateV { entries: st.entries.push(td), acc: st.acc },
                        commits,
                        keep_current,
                    );
                },
            }
        } else {
            match parse_assign_spec(t, st.entries, st.acc, commits, keep_current) {
                Err(_) => {},
                Ok(a) => {
                    let (dtok, stok_opt, subject) = splitn3_spec(t);
                    let stok = stok_opt->0;
                    lemma_resolve_mem(commits, stok);
                    let acc2 = st.acc.push(a);
                    assert(acc_wf(acc2, commits)) by {
                        assert(forall|i: int|
                            0 <= i < st.acc.len() ==> acc2[i] == (#[trigger] st.acc[i]));
                        assert(acc2[st.acc.len() as int] == a);
                        assert(!has_oid(st.acc, a.oid));
                    }
                    lemma_run_lines_wf(
                        rest,
                        ParseStateV { entries: st.entries, acc: acc2 },
                        commits,
                        keep_current,
                    );
                },
            }
        }
    }
}

/// Plan coverage: when parsing succeeds, the assignments cover the
/// candidate commits exactly — same count, no commit assigned twice, and
/// every candidate assigned somewhere. (A count mismatch is already an
/// error by definition of `parse_spec`.)
pub proof fn lemma_plan_coverage(
    text: Seq<char>,
    commits: Seq<CommitInfoV>,
    targets: Seq<TargetDefV>,
    keep_current: bool,
)
    requires
        forall|j1: int, j2: int|
            0 <= j1 < j2 < commits.len() ==> (#[trigger] commits[j1]).oid != (
            #[trigger] commits[j2]).oid,
        parse_spec(text, commits, targets, keep_current) is Ok,
    ensures
        ({
            let acc = parse_spec(text, commits, targets, keep_current)->Ok_0;
            &&& acc.len() == commits.len()
            &&& forall|i1: int, i2: int|
                0 <= i1 < i2 < acc.len() ==> (#[trigger] acc[i1]).oid != (#[trigger] acc[i2]).oid
            &&& forall|j: int|
                0 <= j < commits.len() ==> exists|i: int|
                    0 <= i < acc.len() && acc[i].oid == (#[trigger] commits[j]).oid
        }),
{
    broadcast use vstd::seq_lib::seq_to_set_is_finite;

    let init = ParseStateV { entries: targets, acc: Seq::empty() };
    lemma_run_lines_wf(split_lines_spec(text), init, commits, keep_current);
    let acc = parse_spec(text, commits, targets, keep_current)->Ok_0;
    let ao = acc.map_values(|a: AssignmentV| a.oid);
    let co = commits.map_values(|c: CommitInfoV| c.oid);
    assert(ao.no_duplicates());
    assert(co.no_duplicates());
    ao.unique_seq_to_set();
    co.unique_seq_to_set();
    assert(ao.to_set().subset_of(co.to_set())) by {
        assert forall|x: Seq<char>| ao.to_set().contains(x) implies co.to_set().contains(x) by {
            let i = choose|i: int| 0 <= i < ao.len() && ao[i] == x;
            assert(acc[i].oid == x);
            let j = choose|j: int| 0 <= j < commits.len() && (#[trigger] commits[j]).oid == x;
            assert(co[j] == x);
        }
    }
    vstd::set_lib::lemma_subset_equality(ao.to_set(), co.to_set());
    assert forall|j: int| 0 <= j < commits.len() implies exists|i: int|
        0 <= i < acc.len() && acc[i].oid == (#[trigger] commits[j]).oid by {
        assert(co[j] == commits[j].oid);
        assert(co.to_set().contains(commits[j].oid));
        assert(ao.to_set().contains(commits[j].oid));
        let i = choose|i: int| 0 <= i < ao.len() && ao[i] == commits[j].oid;
        assert(acc[i].oid == commits[j].oid);
    }
}

/// The other face of plan coverage: a specification whose assignment lines
/// all read cleanly still fails whenever their number differs from the
/// number of candidate commits.
pub proof fn lemma_count_mismatch_fails(
    text: Seq<char>,
    commits: Seq<CommitInfoV>,
    targets: Seq<TargetDefV>,
    keep_current: bool,
)
    requires
        run_lines(
            split_lines_spec(text),
            ParseStateV { entries: targets, acc: Seq::empty() },
            commits,
            keep_current,
        ) matches Ok(st) && st.acc.len() != commits.len(),
    ensures
        parse_spec(text, commits, targets, keep_current) == Result::<
            Seq<AssignmentV>,
            ParseErrorV,
        >::Err(ParseErrorV::IncompleteAssignment),
{
}

/// Alias resolution: a `target N name` definition makes `N` resolve to
/// `name` for everything after it, overriding any earlier definition of
/// `N`, and leaves every other alias as it was.
pub proof fn lemma_alias_redefinition(entries: Seq<TargetDefV>, td: TargetDefV)
    ensures
        lookup_alias(entries.push(td), td.alias) == Some(td.branch),
        forall|m: u32|
            m != td.alias ==> lookup_alias(entries.push(td), m) == lookup_alias(entries, m),
{
    assert(entries.push(td).last() == td);
    assert(entries.push(td).drop_last() =~= entries);
}

/// One `target <alias> <branch>` line of the editable draft.
pub open spec fn render_target_line(t: TargetDefV) -> Seq<char> {
    "target "@ + dec_str(t.alias as nat) + seq![' '] + t.branch + seq!['\n']
}

pub open spec fn render_targets(targets: Seq<TargetDefV>) -> Seq<char>
    decreases targets.len(),
{
    if targets.len() == 0 {
        Seq::empty()
    } else {
        render_targets(targets.drop_last()) + render_target_line(targets.last())
    }
}

/// One `current <short> <summary>` line of the editable draft.
pub open spec fn render_commit_line(c: CommitInfoV) -> Seq<char> {
    "current "@ + c.short + seq![' '] + c.summary + seq!['\n']
}

pub open spec fn render_commits(commits: Seq<CommitInfoV>) -> Seq<char>
    decreases commits.len(),
{
    if commits.len() == 0 {
        Seq::empty()
    } else {
        render_commits(commits.drop_last()) + render_commit_line(commits.last())
    }
}

/// The whole editable draft: target definitions, a blank separator when any
/// exist, then one line per candidate commit, oldest first.
pub open spec fn render_spec(targets: Seq<TargetDefV>, commits: Seq<CommitInfoV>) -> Seq<char> {
    render_targets(targets) + (if targets.len() > 0 {
        seq!['\n']
    } else {
        Seq::empty()
    }) + render_commits(commits)
}

/// Produces the editable routing draft: pure formatting, no validation.
pub fn render_routing_file(targets: &TargetDefs, commits: &Vec<CommitInfo>) -> (r: String)
    ensures
        r@ == render_spec(targets.targets.deep_view(), commits.deep_view()),
{
    let ghost tv = targets.targets.deep_view();
    let ghost cv = commits.deep_view();
    let mut out = String::new();
    let mut k: usize = 0;
    proof {
        assert(tv.take(0) =~= Seq::<TargetDefV>::empty());
        assert(out@ =~= render_targets(tv.take(0)));
    }
    while k < targets.targets.len()
        invariant
            k <= targets.targets@.len(),
            tv == targets.targets.deep_view(),
            out@ == render_targets(tv.take(k as int)),
        decreases targets.targets@.len() - k,
    {
        let t = &targets.targets[k];
        out.append("target ");
        let alias_str = u32_to_string(t.alias);
        out.append(alias_str.as_str());
        out.append(" ");
        out.append(t.branch.as_str());
        out.append("\n");
        proof {
            reveal_strlit(" ");
            reveal_strlit("\n");
            assert(" "@ =~= seq![' ']);
            assert("\n"@ =~= seq!['\n']);
            assert(tv.take(k + 1).drop_last() =~= tv.take(k as int));
            assert(tv.take(k + 1).last() == tv[k as int]);
            assert(tv[k as int] == targets.targets@[k as int]@);
            assert(out@ =~= render_targets(tv.take(k as int)) + render_target_line(tv[k as int]));
        }
        k += 1;
    }
    proof {
        assert(tv.take(targets.targets@.len() as int) =~= tv);
    }
    if targets.targets.len() > 0 {
        out.append("\n");
        proof {
            reveal_strlit("\n");
            assert("\n"@ =~= seq!['\n']);
        }
    }
    let ghost head = out@;
    proof {
        assert(head =~= render_targets(tv) + (if tv.len() > 0 {
            seq!['\n']
        } else {
            Seq::<char>::empty()
        }));
        assert(cv.take(0) =~= Seq::<CommitInfoV>::empty());
        assert(out@ =~= head + render_commits(cv.take(0)));
    }
    let mut m: usize = 0;
    while m < commits.len()
        invariant
            m <= commits@.len(),
            cv == commits.deep_view(),
            out@ == head + render_commits(cv.take(m as int)),
        decreases commits@.len() - m,
    {
        let c = &commits[m];
        out.append("current ");
        out.append(c.short.as_str());
        out.append(" ");
        out.append(c.summary.as_str());
        out.append("\n");
        proof {
            reveal_strlit(" ");
            reveal_strlit("\n");
            assert(" "@ =~= seq![' ']);
            assert("\n"@ =~= seq!['\n']);
            assert(cv.take(m + 1).drop_last() =~= cv.take(m as int));
            assert(cv.take(m + 1).last() == cv[m as int]);
            assert(cv[m as int] == commits@[m as int]@);
            assert(out@ =~= head + (render_commits(cv.take(m as int)) + render_commit_line(
                cv[m as int],
            )));
        }
        m += 1;
    }
    proof {
        assert(cv.take(commits@.len() as int) =~= cv);
    }
    out
}

/// The display label of a non-drop destination.
pub open spec fn dest_label(d: DestV) -> Seq<char> {
    match d {
        DestV::Branch(b) => b,
        _ => "current"@,
    }
}

/// The labels a summary reports, in first-seen order; dropped commits are
/// counted separately.
pub open spec fn summary_labels(acc: Seq<AssignmentV>) -> Seq<Seq<char>>
    decreases acc.len(),
{
    if acc.len() == 0 {
        Seq::empty()
    } else {
        let p = summary_labels(acc.drop_last());
        match acc.last().dest {
            DestV::Drop => p,
            d => if p.contains(dest_label(d)) {
                p
            } else {
                p.push(dest_label(d))
            },
        }
    }
}

/// How many assignments carry the label `l`.
pub open spec fn label_count(acc: Seq<AssignmentV>, l: Seq<char>) -> int
    decreases acc.len(),
{
    if acc.len() == 0 {
        0
    } else {
        label_count(acc.drop_last(), l) + (match acc.last().dest {
            DestV::Drop => 0int,
            d => if dest_label(d) == l {
                1int
            } else {
                0int
            },
        })
    }
}

/// How many assignments are dropped.
pub open spec fn drop_count(acc: Seq<AssignmentV>) -> int
    decreases acc.len(),
{
    if acc.len() == 0 {
        0
    } else {
        drop_count(acc.drop_last()) + (match acc.last().dest {
            DestV::Drop => 1int,
            _ => 0int,
        })
    }
}

/// What a completed apply reports: branches newly created, and how many
/// commits were replayed onto each branch.
#[derive(Debug)]
pub struct ApplySummary {
    pub created_branches: Vec<String>,
    pub commits_per_branch: Vec<(String, usize)>,
}

/// Per-destination counts for display.
#[derive(Debug)]
pub struct PlanSummary {
    pub per_branch: Vec<(String, usize)>,
    pub dropped: usize,
}

/// The view of a label-count table.
pub open spec fn pair_counts_view(v: Seq<(String, usize)>) -> Seq<(Seq<char>, int)> {
    v.map_values(|p: (String, usize)| (p.0@, p.1 as int))
}

/// Groups the plan's assignments by destination label, `current` standing
/// for the originating branch, with dropped commits counted apart. Pure;
/// reads the plan and touches nothing else.
pub fn summarize_plan(plan: &RoutingPlan) -> (r: PlanSummary)
    ensures
        ({
            let acc = plan.assignments.deep_view();
            let labels = summary_labels(acc);
            &&& pair_counts_view(r.per_branch@).len() == labels.len()
            &&& forall|i: int|
                0 <= i < labels.len() ==> #[trigger] pair_counts_view(r.per_branch@)[i] == (
                labels[i],
                label_count(acc, labels[i]),
            )
            &&& r.dropped == drop_count(acc)
        }),
{
    let ghost acc = plan.assignments.deep_view();
    let n = plan.assignments.len();

    let mut labels: Vec<String> = Vec::new();
    let mut i: usize = 0;
    proof {
        assert(acc.take(0) =~= Seq::<AssignmentV>::empty());
        assert(labels.deep_view() =~= summary_labels(acc.take(0)));
    }
    while i < n
        invariant
            i <= n,
            n == plan.assignments@.len(),
            acc == plan.assignments.deep_view(),
            labels.deep_view() == summary_labels(acc.take(i as int)),
        decreases n - i,
    {
        proof {
            assert(acc.take(i + 1).drop_last() =~= acc.take(i as int));
            assert(acc.take(i + 1).last() == acc[i as int]);
            assert(acc[i as int] == plan.assignments@[i as int]@);
        }
        let lab_opt: Option<String> = match &plan.assignments[i].dest {
            Dest::Branch(b) => Some(b.clone()),
            Dest::Current => Some("current".to_owned()),
            Dest::Drop => None,
        };
        match lab_opt {
            Some(lab) => {
                assert(lab@ == dest_label(acc[i as int].dest));
                let ghost before = labels.deep_view();
                if !vec_contains_string(&labels, &lab) {
                    labels.push(lab);
                    proof {
                        assert(labels.deep_view() =~= before.push(
                            dest_label(acc[i as int].dest),
                        ));
                    }
                }
            },
            None => {},
        }
        i += 1;
    }
    proof {
        assert(acc.take(n as int) =~= acc);
    }

    let mut per_branch: Vec<(String, usize)> = Vec::new();
    let mut k: usize = 0;
    while k < labels.len()
        invariant
            k <= labels@.len(),
            labels.deep_view() == summary_labels(acc),
            acc == plan.assignments.deep_view(),
            n == plan.assignments@.len(),
            pair_counts_view(per_branch@).len() == k,
            forall|j: int|
                0 <= j < k ==> #[trigger] pair_counts_view(per_branch@)[j] == (
                    labels.deep_view()[j],
                    label_count(acc, labels.deep_view()[j]),
                ),
        decreases labels@.len() - k,
    {
        let lab = labels[k].clone();
        proof {
            assert(lab@ == labels.deep_view()[k as int]);
        }
        let mut cnt: usize = 0;
        let mut j: usize = 0;
        proof {
            assert(acc.take(0) =~= Seq::<AssignmentV>::empty());
        }
        while j < n
            invariant
                j <= n,
                n == plan.assignments@.len(),
                acc == plan.assignments.deep_view(),
                k < labels@.len(),
                lab@ == labels.deep_view()[k as int],
                cnt <= j,
                cnt == label_count(acc.take(j as int), lab@),
            decreases n - j,
        {
            proof {
                assert(acc.take(j + 1).drop_last() =~= acc.take(j as int));
                assert(acc.take(j + 1).last() == acc[j as int]);
                assert(acc[j as int] == plan.assignments@[j as int]@);
            }
            let hit: bool = match &plan.assignments[j].dest {
                Dest::Branch(b) => str_eq(b.as_str(), lab.as_str()),
                Dest::Current => str_eq("current", lab.as_str()),
                Dest::Drop => false,
            };
            if hit {
                cnt += 1;
            }
            j += 1;
        }
        proof {
            assert(acc.take(n as int) =~= acc);
        }
        let ghost before_pairs = pair_counts_view(per_branch@);
        let ghost new_pair = (lab@, cnt as int);
        per_branch.push((lab, cnt));
        proof {
            assert(pair_counts_view(per_branch@) =~= before_pairs.push(new_pair));
        }
        k += 1;
    }

    let mut dropped: usize = 0;
    let mut j: usize = 0;
    proof {
        assert(acc.take(0) =~= Seq::<AssignmentV>::empty());
    }
    while j < n
        invariant
            j <= n,
            n == plan.assignments@.len(),
            acc == plan.assignments.deep_view(),
            dropped <= j,
            dropped == drop_count(acc.take(j as int)),
        decreases n - j,
    {
        proof {
            assert(acc.take(j + 1).drop_last() =~= acc.take(j as int));
            assert(acc.take(j + 1).last() == acc[j as int]);
            assert(acc[j as int] == plan.assignments@[j as int]@);
        }
        match &plan.assignments[j].dest {
            Dest::Drop => {
                dropped += 1;
            },
            _ => {},
        }
        j += 1;
    }
    proof {
        assert(acc.take(n as int) =~= acc);
    }
    PlanSummary { per_branch, dropped }
}

/// A destination token that reads as the integer `td.alias` resolves, after
/// the definition `td`, to exactly `td.branch`.
pub proof fn lemma_alias_applies(
    tok: Seq<char>,
    entries: Seq<TargetDefV>,
    td: TargetDefV,
    keep_current: bool,
)
    requires
        parse_u32_spec(tok) == Some(td.alias),
    ensures
        parse_dest_spec(tok, entries.push(td), keep_current) == Result::<
            DestV,
            ParseErrorV,
        >::Ok(DestV::Branch(td.branch)),
{
    reveal_strlit("current");
    if tok == "current"@ {
        let d = crate::text::u32_operand(tok);
        assert(tok[0] == 'c');
        assert(d == tok);
        assert(!crate::text::is_digit(d[0]));
        assert(!crate::text::all_digits(d));
        assert(false);
    }
    lemma_alias_redefinition(entries, td);
}

} // verus!
