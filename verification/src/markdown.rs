//! Markdown document building: a `Document` accumulates the rendered text of
//! elements (headers, paragraphs, lists, tables, code blocks), each of which
//! renders itself exactly as its `spec_render` view says.

use vstd::prelude::*;

verus! {

/// Anything that can be rendered into a markdown fragment.
pub trait Element: Sized {
    /// The exact text this element renders to.
    spec fn spec_render(&self) -> Seq<char>;

    fn render(&self) -> (s: String)
        ensures
            s@ == self.spec_render(),
    ;
}

/// A markdown document: the concatenation of the renderings of the elements
/// added to it, in order.
pub struct Document {
    buff: String,
}

impl Document {
    pub closed spec fn view(&self) -> Seq<char> {
        self.buff@
    }

    pub fn new() -> (d: Document)
        ensures
            d@ == Seq::<char>::empty(),
    {
        Document { buff: String::new() }
    }

    pub fn add<E: Element>(&mut self, elem: E)
        ensures
            final(self)@ == old(self)@ + elem.spec_render(),
    {
        let rendered = elem.render();
        self.buff.append(rendered.as_str());
    }

    pub fn as_str(&self) -> (s: &str)
        ensures
            s@ == self@,
    {
        self.buff.as_str()
    }
}

/// A paragraph: its content followed by a blank line.
pub struct Paragraph(String);

impl Paragraph {
    pub closed spec fn content(&self) -> Seq<char> {
        self.0@
    }

    pub fn new(content: &str) -> (p: Paragraph)
        ensures
            p.content() == content@,
    {
        Paragraph(String::from_str(content))
    }
}

impl Element for Paragraph {
    open spec fn spec_render(&self) -> Seq<char> {
        self.content() + "\n\n"@
    }

    fn render(&self) -> (s: String)
        ensures
            s@ == self.spec_render(),
    {
        let mut s = self.0.clone();
        s.append("\n\n");
        s
    }
}

/// A first-level header.
pub struct H1(String);

impl H1 {
    pub closed spec fn content(&self) -> Seq<char> {
        self.0@
    }

    pub fn new(content: &str) -> (h: H1)
        ensures
            h.content() == content@,
    {
        H1(String::from_str(content))
    }
}

impl Element for H1 {
    open spec fn spec_render(&self) -> Seq<char> {
        "# "@ + self.content() + "\n"@
    }

    fn render(&self) -> (s: String)
        ensures
            s@ == self.spec_render(),
    {
        let mut s = String::from_str("# ");
        s.append(self.0.as_str());
        s.append("\n");
        s
    }
}

/// A second-level header.
pub struct H2(String);

impl H2 {
    pub closed spec fn content(&self) -> Seq<char> {
        self.0@
    }

    pub fn new(content: &str) -> (h: H2)
        ensures
            h.content() == content@,
    {
        H2(String::from_str(content))
    }
}

impl Element for H2 {
    open spec fn spec_render(&self) -> Seq<char> {
        "## "@ + self.content() + "\n"@
    }

    fn render(&self) -> (s: String)
        ensures
            s@ == self.spec_render(),
    {
        let mut s = String::from_str("## ");
        s.append(self.0.as_str());
        s.append("\n");
        s
    }
}

/// A third-level header.
pub struct H3(String);

impl H3 {
    pub closed spec fn content(&self) -> Seq<char> {
        self.0@
    }

    pub fn new(content: &str) -> (h: H3)
        ensures
            h.content() == content@,
    {
        H3(String::from_str(content))
    }
}

impl Element for H3 {
    open spec fn spec_render(&self) -> Seq<char> {
        "### "@ + self.content() + "\n"@
    }

    fn render(&self) -> (s: String)
        ensures
            s@ == self.spec_render(),
    {
        let mut s = String::from_str("### ");
        s.append(self.0.as_str());
        s.append("\n");
        s
    }
}

/// The rendering of bullet-list items: one `* item` line each.
pub open spec fn spec_bullet_items(items: Seq<Seq<char>>) -> Seq<char>
    decreases items.len(),
{
    if items.len() == 0 {
        Seq::empty()
    } else {
        spec_bullet_items(items.drop_last()) + "* "@ + items.last() + "\n"@
    }
}

/// A bullet list: one `* item` line per item, followed by a blank line.
pub struct List(Vec<String>);

impl List {
    pub closed spec fn items(&self) -> Seq<Seq<char>> {
        self.0@.map_values(|s: String| s@)
    }

    pub fn new() -> (l: List)
        ensures
            l.items() == Seq::<Seq<char>>::empty(),
    {
        let l = List(Vec::new());
        proof {
            assert(l.items() =~= Seq::<Seq<char>>::empty());
        }
        l
    }

    pub fn add(&mut self, item: &str)
        ensures
            final(self).items() == old(self).items().push(item@),
    {
        self.0.push(String::from_str(item));
        proof {
            assert(self.items() =~= old(self).items().push(item@));
        }
    }

    pub fn extend(&mut self, items: &[&str])
        ensures
            final(self).items() == old(self).items() + items@.map_values(|s: &str| s@),
    {
        let ghost all = items@.map_values(|s: &str| s@);
        let n = items.len();
        for i in 0..n
            invariant
                n == items@.len(),
                all == items@.map_values(|s: &str| s@),
                self.items() == old(self).items() + all.take(i as int),
        {
            self.add(items[i]);
            proof {
                assert(all.take(i as int).push(items@[i as int]@) =~= all.take(i + 1));
            }
        }
        proof {
            assert(all.take(n as int) =~= all);
        }
    }
}

impl Element for List {
    open spec fn spec_render(&self) -> Seq<char> {
        spec_bullet_items(self.items()) + "\n"@
    }

    fn render(&self) -> (s: String)
        ensures
            s@ == self.spec_render(),
    {
        let ghost all = self.items();
        let mut out = String::new();
        let n = self.0.len();
        for i in 0..n
            invariant
                n == self.0@.len(),
                all == self.items(),
                out@ == spec_bullet_items(all.take(i as int)),
        {
            out.append("* ");
            out.append(self.0[i].as_str());
            out.append("\n");
            proof {
                assert(all.take(i + 1).drop_last() =~= all.take(i as int));
            }
        }
        proof {
            assert(all.take(n as int) =~= all);
        }
        out.append("\n");
        out
    }
}

/// The rendering of numbered-list items: lines `1. a`, `2. b`, and so on; the
/// number of the last item of a prefix is the prefix's length.
pub open spec fn spec_numbered_items(items: Seq<Seq<char>>) -> Seq<char>
    decreases items.len(),
{
    if items.len() == 0 {
        Seq::empty()
    } else {
        spec_numbered_items(items.drop_last()) + crate::decimal::spec_decimal(
            items.len() as nat,
        ) + ". "@ + items.last() + "\n"@
    }
}

/// A numbered list: one `n. item` line per item, numbered from 1, followed by
/// a blank line.
pub struct NumberedList(Vec<String>);

impl NumberedList {
    pub closed spec fn items(&self) -> Seq<Seq<char>> {
        self.0@.map_values(|s: String| s@)
    }

    pub fn new() -> (l: NumberedList)
        ensures
            l.items() == Seq::<Seq<char>>::empty(),
    {
        let l = NumberedList(Vec::new());
        proof {
            assert(l.items() =~= Seq::<Seq<char>>::empty());
        }
        l
    }

    pub fn add(&mut self, item: &str)
        ensures
            final(self).items() == old(self).items().push(item@),
    {
        self.0.push(String::from_str(item));
        proof {
            assert(self.items() =~= old(self).items().push(item@));
        }
    }

    pub fn extend(&mut self, items: &[&str])
        ensures
            final(self).items() == old(self).items() + items@.map_values(|s: &str| s@),
    {
        let ghost all = items@.map_values(|s: &str| s@);
        let n = items.len();
        for i in 0..n
            invariant
                n == items@.len(),
                all == items@.map_values(|s: &str| s@),
                self.items() == old(self).items() + all.take(i as int),
        {
            self.add(items[i]);
            proof {
                assert(all.take(i as int).push(items@[i as int]@) =~= all.take(i + 1));
            }
        }
        proof {
            assert(all.take(n as int) =~= all);
        }
    }
}

impl Element for NumberedList {
    open spec fn spec_render(&self) -> Seq<char> {
        spec_numbered_items(self.items()) + "\n"@
    }

    fn render(&self) -> (s: String)
        ensures
            s@ == self.spec_render(),
    {
        let ghost all = self.items();
        let mut out = String::new();
        let n = self.0.len();
        for i in 0..n
            invariant
                n == self.0@.len(),
                all == self.items(),
                out@ == spec_numbered_items(all.take(i as int)),
        {
            let number = crate::decimal::u64_string((i + 1) as u64);
            out.append(number.as_str());
            out.append(". ");
            out.append(self.0[i].as_str());
            out.append("\n");
            proof {
                assert(all.take(i + 1).drop_last() =~= all.take(i as int));
                assert(all.take(i + 1).len() == i + 1);
            }
        }
        proof {
            assert(all.take(n as int) =~= all);
        }
        out.append("\n");
        out
    }
}

/// The items joined by the separator, with nothing before the first or after
/// the last.
pub open spec fn spec_joined(items: Seq<Seq<char>>, sep: Seq<char>) -> Seq<char>
    decreases items.len(),
{
    if items.len() == 0 {
        Seq::empty()
    } else if items.len() == 1 {
        items[0]
    } else {
        spec_joined(items.drop_last(), sep) + sep + items.last()
    }
}

/// The rendering of a table's body: each row's cells joined by `|`, one row
/// per line.
pub open spec fn spec_table_rows(rows: Seq<Seq<Seq<char>>>) -> Seq<char>
    decreases rows.len(),
{
    if rows.len() == 0 {
        Seq::empty()
    } else {
        spec_table_rows(rows.drop_last()) + spec_joined(rows.last(), "|"@) + "\n"@
    }
}

/// The divider line under a table's header: one `:---:` per column.
pub open spec fn spec_table_divider(width: nat) -> Seq<char> {
    spec_joined(Seq::new(width, |i: int| ":---:"@), "|"@) + "\n"@
}

/// A table with centered columns: a header line, a divider, and the rows,
/// followed by a blank line.  Every row has as many cells as the header.
pub struct Table {
    headers: Vec<String>,
    rows: Vec<Vec<String>>,
}

impl Table {
    pub closed spec fn spec_headers(&self) -> Seq<Seq<char>> {
        self.headers@.map_values(|s: String| s@)
    }

    pub closed spec fn spec_rows(&self) -> Seq<Seq<Seq<char>>> {
        self.rows@.map_values(|r: Vec<String>| r@.map_values(|s: String| s@))
    }

    pub fn new(headers: &[&str]) -> (t: Table)
        ensures
            t.spec_headers() == headers@.map_values(|s: &str| s@),
            t.spec_rows() == Seq::<Seq<Seq<char>>>::empty(),
    {
        let t = Table { headers: copy_cells(headers), rows: Vec::new() };
        proof {
            assert(t.spec_headers() =~= headers@.map_values(|s: &str| s@));
            assert(t.spec_rows() =~= Seq::<Seq<Seq<char>>>::empty());
        }
        t
    }

    pub fn add(&mut self, row: &[&str])
        requires
            row@.len() == old(self).spec_headers().len(),
        ensures
            final(self).spec_headers() == old(self).spec_headers(),
            final(self).spec_rows() == old(self).spec_rows().push(
                row@.map_values(|s: &str| s@),
            ),
    {
        self.rows.push(copy_cells(row));
        proof {
            assert(self.spec_rows() =~= old(self).spec_rows().push(
                row@.map_values(|s: &str| s@),
            ));
        }
    }
}

/// The cells of one row, as owned strings.
fn copy_cells(row: &[&str]) -> (r: Vec<String>)
    ensures
        r@.map_values(|s: String| s@) == row@.map_values(|s: &str| s@),
{
    let ghost all = row@.map_values(|s: &str| s@);
    let mut r: Vec<String> = Vec::new();
    let n = row.len();
    for i in 0..n
        invariant
            n == row@.len(),
            all == row@.map_values(|s: &str| s@),
            r@.len() == i,
            forall|k: int| 0 <= k < i ==> r@[k]@ == all[k],
    {
        r.push(String::from_str(row[i]));
    }
    proof {
        assert(r@.map_values(|s: String| s@) =~~= all);
    }
    r
}

/// Appends the cells joined by `|` to `out`.
fn append_joined(out: &mut String, cells: &Vec<String>)
    ensures
        final(out)@ == old(out)@ + spec_joined(cells@.map_values(|s: String| s@), "|"@),
{
    let ghost all = cells@.map_values(|s: String| s@);
    let n = cells.len();
    for i in 0..n
        invariant
            n == cells@.len(),
            all == cells@.map_values(|s: String| s@),
            out@ == old(out)@ + spec_joined(all.take(i as int), "|"@),
    {
        if i > 0 {
            out.append("|");
        }
        out.append(cells[i].as_str());
        proof {
            assert(all.take(i + 1).drop_last() =~= all.take(i as int));
        }
    }
    proof {
        assert(all.take(n as int) =~= all);
    }
}

impl Element for Table {
    open spec fn spec_render(&self) -> Seq<char> {
        spec_joined(self.spec_headers(), "|"@) + "\n"@ + spec_table_divider(
            self.spec_headers().len() as nat,
        ) + spec_table_rows(self.spec_rows()) + "\n"@
    }

    fn render(&self) -> (s: String)
        ensures
            s@ == self.spec_render(),
    {
        let mut out = String::new();
        append_joined(&mut out, &self.headers);
        out.append("\n");

        let ghost divider = Seq::new(self.spec_headers().len() as nat, |i: int| ":---:"@);
        let n = self.headers.len();
        for i in 0..n
            invariant
                n == self.headers@.len(),
                divider == Seq::new(self.spec_headers().len() as nat, |i: int| ":---:"@),
                out@ == spec_joined(self.spec_headers(), "|"@) + "\n"@ + spec_joined(
                    divider.take(i as int),
                    "|"@,
                ),
        {
            if i > 0 {
                out.append("|");
            }
            out.append(":---:");
            proof {
                assert(divider.take(i + 1).drop_last() =~= divider.take(i as int));
            }
        }
        proof {
            assert(divider.take(n as int) =~= divider);
        }
        out.append("\n");

        let ghost all_rows = self.spec_rows();
        let m = self.rows.len();
        for i in 0..m
            invariant
                m == self.rows@.len(),
                all_rows == self.spec_rows(),
                out@ == spec_joined(self.spec_headers(), "|"@) + "\n"@ + spec_table_divider(
                    self.spec_headers().len() as nat,
                ) + spec_table_rows(all_rows.take(i as int)),
        {
            append_joined(&mut out, &self.rows[i]);
            out.append("\n");
            proof {
                assert(all_rows.take(i + 1).drop_last() =~= all_rows.take(i as int));
            }
        }
        proof {
            assert(all_rows.take(m as int) =~= all_rows);
        }
        out.append("\n");
        out
    }
}

/// A line with a trailing carriage return loses it when the line feed that
/// follows ends the line.
pub open spec fn spec_strip_cr(line: Seq<char>) -> Seq<char> {
    if line.len() > 0 && line.last() == '\r' {
        line.drop_last()
    } else {
        line
    }
}

/// Scanning a text for line feeds: the lines already ended, and the part after
/// the last line feed.
pub open spec fn spec_scan_lines(s: Seq<char>) -> (Seq<Seq<char>>, Seq<char>)
    decreases s.len(),
{
    if s.len() == 0 {
        (Seq::empty(), Seq::empty())
    } else {
        let rec = spec_scan_lines(s.drop_last());
        if s.last() == '\n' {
            (rec.0.push(spec_strip_cr(rec.1)), Seq::<char>::empty())
        } else {
            (rec.0, rec.1.push(s.last()))
        }
    }
}

/// The lines of a text: split at line feeds, a carriage return before a line
/// feed dropped, and no empty line for a trailing line feed.
pub open spec fn spec_lines(s: Seq<char>) -> Seq<Seq<char>> {
    let sc = spec_scan_lines(s);
    if sc.1.len() == 0 {
        sc.0
    } else {
        sc.0.push(sc.1)
    }
}

/// The rendering of a code block's lines: each indented by four spaces.
pub open spec fn spec_code_lines(lines: Seq<Seq<char>>) -> Seq<char>
    decreases lines.len(),
{
    if lines.len() == 0 {
        Seq::empty()
    } else {
        spec_code_lines(lines.drop_last()) + "    "@ + lines.last() + "\n"@
    }
}

/// A code block: a blank line, every line of the content indented by four
/// spaces, and a blank line.
pub struct Code(String);

impl Code {
    pub closed spec fn content(&self) -> Seq<char> {
        self.0@
    }

    pub fn new(content: &str) -> (c: Code)
        ensures
            c.content() == content@,
    {
        Code(String::from_str(content))
    }
}

impl Element for Code {
    open spec fn spec_render(&self) -> Seq<char> {
        "\n"@ + spec_code_lines(spec_lines(self.content())) + "\n"@
    }

    fn render(&self) -> (r: String)
        ensures
            r@ == self.spec_render(),
    {
        let s = self.0.as_str();
        let len = s.unicode_len();
        let mut out = String::from_str("\n");
        let mut start: usize = 0;
        let mut i: usize = 0;
        while i < len
            invariant
                s@ == self.content(),
                len == s@.len(),
                start <= i <= len,
                spec_scan_lines(s@.take(i as int)).1 == s@.subrange(start as int, i as int),
                out@ == "\n"@ + spec_code_lines(spec_scan_lines(s@.take(i as int)).0),
            decreases len - i,
        {
            let c = s.get_char(i);
            proof {
                assert(s@.take(i + 1).drop_last() =~= s@.take(i as int));
                assert(s@.take(i + 1).last() == s@[i as int]);
            }
            if c == '\n' {
                let end = if i > start && s.get_char(i - 1) == '\r' {
                    i - 1
                } else {
                    i
                };
                proof {
                    if i > start && s@[i - 1] == '\r' {
                        assert(s@.subrange(start as int, i as int).drop_last() =~= s@.subrange(
                            start as int,
                            i - 1,
                        ));
                    }
                    assert(spec_strip_cr(spec_scan_lines(s@.take(i as int)).1) == s@.subrange(
                        start as int,
                        end as int,
                    ));
                }
                let ghost line = s@.subrange(start as int, end as int);
                out.append("    ");
                out.append(s.substring_char(start, end));
                out.append("\n");
                start = i + 1;
                proof {
                    assert(s@.subrange(start as int, i + 1) =~= Seq::<char>::empty());
                    let prev = spec_scan_lines(s@.take(i as int)).0;
                    assert(spec_scan_lines(s@.take(i + 1)).0 == prev.push(line));
                    assert(prev.push(line).drop_last() =~= prev);
                    assert(prev.push(line).last() == line);
                    assert(out@ =~= "\n"@ + spec_code_lines(prev.push(line)));
                }
            } else {
                proof {
                    assert(s@.subrange(start as int, i as int).push(s@[i as int]) =~= s@.subrange(
                        start as int,
                        i + 1,
                    ));
                }
            }
            i += 1;
        }
        proof {
            assert(s@.take(len as int) =~= s@);
        }
        if start < len {
            let ghost part = s@.subrange(start as int, len as int);
            out.append("    ");
            out.append(s.substring_char(start, len));
            out.append("\n");
            proof {
                let done = spec_scan_lines(s@).0;
                assert(spec_lines(s@) == done.push(part));
                assert(done.push(part).drop_last() =~= done);
                assert(done.push(part).last() == part);
                assert(out@ =~= "\n"@ + spec_code_lines(spec_lines(s@)));
            }
        } else {
            proof {
                assert(s@.subrange(start as int, len as int).len() == 0);
                assert(spec_lines(s@) == spec_scan_lines(s@).0);
            }
        }
        out.append("\n");
        out
    }
}

/// A horizontal rule.
pub struct HR;

impl Element for HR {
    open spec fn spec_render(&self) -> Seq<char> {
        "---\n"@
    }

    fn render(&self) -> (s: String)
        ensures
            s@ == self.spec_render(),
    {
        String::from_str("---\n")
    }
}

} // verus!
