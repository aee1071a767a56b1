//! Rendering of entries and of a title search's report as styled lines. The
//! caller applies the emphasis and writes the lines out.
use crate::search::{search_entry_by_title, search_spec};
use crate::tree::{lookup, DisplayError, Entry, Node, Tree};
use vstd::prelude::*;
use vstd::string::*;

verus! {

/// How a line's value is emphasised on the terminal.
#[derive(Clone, Copy, Debug, PartialEq, Eq, Structural)]
pub enum Emphasis {
    Plain,
    Italic,
    Bold,
}

/// One line of output: an unstyled prefix, then the styled value.
pub struct Line {
    pub prefix: String,
    pub value: String,
    pub emphasis: Emphasis,
}

impl View for Line {
    type V = (Seq<char>, Seq<char>, Emphasis);

    open spec fn view(&self) -> (Seq<char>, Seq<char>, Emphasis) {
        (self.prefix@, self.value@, self.emphasis)
    }
}

pub open spec fn lines_view(v: Seq<Line>) -> Seq<(Seq<char>, Seq<char>, Emphasis)> {
    v.map_values(|l: Line| l@)
}

/// The lines of an entry: the title in italics, then the user name and the
/// password in bold behind their icons, then the notes behind theirs when
/// they are present and not empty. Title, user name and password are
/// required, in that order.
pub open spec fn entry_lines(fields: Seq<(String, String)>) -> Result<
    Seq<(Seq<char>, Seq<char>, Emphasis)>,
    DisplayError,
> {
    match (lookup(fields, "Title"@), lookup(fields, "UserName"@), lookup(fields, "Password"@)) {
        (None, _, _) => Err(DisplayError::MissingTitle),
        (Some(_), None, _) => Err(DisplayError::MissingUsername),
        (Some(_), Some(_), None) => Err(DisplayError::MissingPassword),
        (Some(t), Some(u), Some(p)) => {
            let head = seq![
                (Seq::<char>::empty(), t, Emphasis::Italic),
                ("  \u{1F464}: "@, u, Emphasis::Bold),
                ("  \u{1F511}: "@, p, Emphasis::Bold),
            ];
            match lookup(fields, "Notes"@) {
                Some(n) if n.len() > 0 => Ok(head.push(("  \u{1F4DD}: "@, n, Emphasis::Plain))),
                _ => Ok(head),
            }
        },
    }
}

/// A line with no prefix and no emphasis.
pub open spec fn plain(s: Seq<char>) -> (Seq<char>, Seq<char>, Emphasis) {
    (Seq::empty(), s, Emphasis::Plain)
}

/// The lines of the node at `i`; a group has no title to show.
pub open spec fn node_lines(nodes: Seq<Node>, i: int) -> Result<
    Seq<(Seq<char>, Seq<char>, Emphasis)>,
    DisplayError,
> {
    match nodes[i] {
        Node::Entry(e) => entry_lines(e.fields@),
        Node::Group(_) => Err(DisplayError::MissingTitle),
    }
}

/// Each hit's lines followed by a blank line; the first failing hit's
/// error otherwise.
pub open spec fn hits_lines(nodes: Seq<Node>, hits: Seq<usize>) -> Result<
    Seq<(Seq<char>, Seq<char>, Emphasis)>,
    DisplayError,
>
    decreases hits.len(),
{
    if hits.len() == 0 {
        Ok(Seq::empty())
    } else {
        match hits_lines(nodes, hits.drop_last()) {
            Err(e) => Err(e),
            Ok(prev) => match node_lines(nodes, hits.last() as int) {
                Err(e) => Err(e),
                Ok(ls) => Ok(prev + ls.push(plain(Seq::empty()))),
            },
        }
    }
}

/// The digit character of `d < 10`.
pub open spec fn digit(d: nat) -> char {
    "0123456789"@[d as int]
}

/// The decimal notation of `n`, without leading zeros.
pub open spec fn decimal(n: nat) -> Seq<char>
    decreases n,
{
    if n < 10 {
        seq![digit(n)]
    } else {
        decimal(n / 10).push(digit(n % 10))
    }
}

/// The report of a search for `title`: "No entries found", or a count line
/// followed by each hit's lines and a blank line.
pub open spec fn report_spec(nodes: Seq<Node>, title: Seq<char>) -> Result<
    Seq<(Seq<char>, Seq<char>, Emphasis)>,
    DisplayError,
> {
    let hits = search_spec(nodes, title);
    if hits.len() == 0 {
        Ok(seq![plain("No entries found"@)])
    } else {
        let header = "Found "@ + decimal(hits.len()) + " result(s) for title name \""@ + title
            + "\""@;
        match hits_lines(nodes, hits) {
            Err(e) => Err(e),
            Ok(ls) => Ok(seq![plain(header)] + ls),
        }
    }
}

fn line(prefix: &str, value: &str, emphasis: Emphasis) -> (r: Line)
    ensures
        r@ == (prefix@, value@, emphasis),
{
    Line { prefix: String::from_str(prefix), value: String::from_str(value), emphasis }
}

/// Renders an entry for display; a missing title, user name or password is
/// an error, a missing or empty notes field only drops its line.
pub fn format_entry(entry: &Entry) -> (r: Result<Vec<Line>, DisplayError>)
    ensures
        match r {
            Ok(v) => entry_lines(entry.fields@) == Ok::<_, DisplayError>(lines_view(v@)),
            Err(e) => entry_lines(entry.fields@) == Err::<Seq<(Seq<char>, Seq<char>, Emphasis)>, _>(e),
        },
{
    let title = match entry.get_title() {
        Some(t) => t,
        None => return Err(DisplayError::MissingTitle),
    };
    let username = match entry.get_username() {
        Some(u) => u,
        None => return Err(DisplayError::MissingUsername),
    };
    let password = match entry.get_password() {
        Some(p) => p,
        None => return Err(DisplayError::MissingPassword),
    };
    let mut out: Vec<Line> = Vec::new();
    out.push(line("", title.as_str(), Emphasis::Italic));
    out.push(line("  \u{1F464}: ", username.as_str(), Emphasis::Bold));
    out.push(line("  \u{1F511}: ", password.as_str(), Emphasis::Bold));
    proof {
        reveal_strlit("");
        assert(""@ =~= Seq::<char>::empty());
    }
    let ghost head = seq![
        (Seq::<char>::empty(), title@, Emphasis::Italic),
        ("  \u{1F464}: "@, username@, Emphasis::Bold),
        ("  \u{1F511}: "@, password@, Emphasis::Bold),
    ];
    assert(lines_view(out@) =~= head);
    match entry.get("Notes") {
        Some(n) => {
            if !n.as_str().is_empty() {
                out.push(line("  \u{1F4DD}: ", n.as_str(), Emphasis::Plain));
                assert(lines_view(out@) =~= head.push(("  \u{1F4DD}: "@, n@, Emphasis::Plain)));
            }
        },
        None => {},
    }
    Ok(out)
}

/// The decimal notation of `n`.
pub fn decimal_string(n: usize) -> (r: String)
    ensures
        r@ == decimal(n as nat),
    decreases n,
{
    let digits = "0123456789";
    proof {
        reveal_strlit("0123456789");
    }
    let d = n % 10;
    let last = digits.substring_char(d, d + 1);
    assert(last@ =~= seq![digit(d as nat)]);
    if n < 10 {
        String::from_str(last)
    } else {
        let mut s = decimal_string(n / 10);
        s.append(last);
        assert(s@ =~= decimal(n as nat));
        s
    }
}

/// Once a prefix of the hits fails, every longer prefix fails the same way.
proof fn lemma_hits_error_stays(nodes: Seq<Node>, hits: Seq<usize>, k: int, j: int, e: DisplayError)
    requires
        0 < k <= j <= hits.len(),
        hits_lines(nodes, hits.take(k)) == Err::<Seq<(Seq<char>, Seq<char>, Emphasis)>, _>(e),
    ensures
        hits_lines(nodes, hits.take(j)) == Err::<Seq<(Seq<char>, Seq<char>, Emphasis)>, _>(e),
    decreases j - k,
{
    if j > k {
        lemma_hits_error_stays(nodes, hits, k, j - 1, e);
        assert(hits.take(j).drop_last() =~= hits.take(j - 1));
    }
}

/// The report of a title search: "No entries found" when nothing matches;
/// otherwise a count line, then each matching entry's lines and a blank
/// line, in search order. A match that lacks a user name or a password
/// makes the whole report fail with that error.
pub fn search_report(title: &str, tree: &Tree) -> (r: Result<Vec<Line>, DisplayError>)
    requires
        tree.wf(),
    ensures
        match r {
            Ok(v) => report_spec(tree.nodes@, title@) == Ok::<_, DisplayError>(lines_view(v@)),
            Err(e) => report_spec(tree.nodes@, title@) == Err::<Seq<(Seq<char>, Seq<char>, Emphasis)>, _>(e),
        },
{
    let ghost nodes = tree.nodes@;
    let total = tree.nodes.len();
    let hits = search_entry_by_title(title, tree);
    proof {
        reveal_strlit("");
        assert(""@ =~= Seq::<char>::empty());
        crate::search::lemma_search_entries(nodes, title@);
    }
    if hits.len() == 0 {
        let mut out: Vec<Line> = Vec::new();
        out.push(line("", "No entries found", Emphasis::Plain));
        assert(lines_view(out@) =~= seq![plain("No entries found"@)]);
        return Ok(out);
    }
    let mut header = String::from_str("Found ");
    let count = decimal_string(hits.len());
    header.append(count.as_str());
    header.append(" result(s) for title name \"");
    header.append(title);
    header.append("\"");
    let mut out: Vec<Line> = Vec::new();
    out.push(Line { prefix: String::new(), value: header, emphasis: Emphasis::Plain });
    let ghost head = seq![plain(header@)];
    assert(lines_view(out@) =~= head);
    let n = hits.len();
    let mut k: usize = 0;
    assert(hits@.take(0) =~= Seq::<usize>::empty());
    while k < n
        invariant
            nodes == tree.nodes@,
            ""@ == Seq::<char>::empty(),
            hits@ == search_spec(nodes, title@),
            forall|j: int| 0 <= j < hits@.len() ==> #[trigger] hits@[j] < nodes.len(),
            n == hits@.len(),
            k <= n,
            hits_lines(nodes, hits@.take(k as int)) is Ok,
            lines_view(out@) == head + hits_lines(nodes, hits@.take(k as int))->Ok_0,
        decreases n - k,
    {
        let h = hits[k];
        let ghost t = hits@.take(k as int + 1);
        assert(t.drop_last() =~= hits@.take(k as int));
        assert(t.last() == h);
        let ghost prev = lines_view(out@);
        match &tree.nodes[h] {
            Node::Entry(e) => {
                match format_entry(e) {
                    Ok(mut ls) => {
                        let ghost lv = lines_view(ls@);
                        out.append(&mut ls);
                        out.push(line("", "", Emphasis::Plain));
                        assert(lines_view(out@) =~= prev + lv.push(plain(Seq::empty())));
                    },
                    Err(err) => {
                        proof {
                            lemma_hits_error_stays(nodes, hits@, k as int + 1, n as int, err);
                            assert(hits@.take(n as int) =~= hits@);
                        }
                        return Err(err);
                    },
                }
            },
            Node::Group(_) => {
                proof {
                    lemma_hits_error_stays(
                        nodes,
                        hits@,
                        k as int + 1,
                        n as int,
                        DisplayError::MissingTitle,
                    );
                    assert(hits@.take(n as int) =~= hits@);
                }
                return Err(DisplayError::MissingTitle);
            },
        }
        k = k + 1;
    }
    assert(hits@.take(n as int) =~= hits@);
    Ok(out)
}

} // verus!
