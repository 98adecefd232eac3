//! The puzzle as a web page: the grid as a table beside the list of words.

use crate::grid::Grid;
use crate::listing::{listed, sort_words};
use vstd::prelude::*;

verus! {

/// Calls `String::push`, which appends the character to the end of the
/// string.
#[verifier::external_body]
fn push_char(text: &mut String, letter: char)
    ensures
        final(text)@ == old(text)@.push(letter),
{
    text.push(letter)
}

/// One table cell with its letter.
pub open spec fn cell_markup(letter: char) -> Seq<char> {
    "<td>"@.push(letter) + "</td>"@
}

/// The cells of a row, one after the other.
pub open spec fn cells_markup(row: Seq<char>) -> Seq<char>
    decreases row.len(),
{
    if row.len() == 0 {
        Seq::empty()
    } else {
        cells_markup(row.drop_last()) + cell_markup(row.last())
    }
}

/// One table row.
pub open spec fn row_markup(row: Seq<char>) -> Seq<char> {
    "<tr>"@ + cells_markup(row) + "</tr>"@
}

/// The rows of the table, top row first.
pub open spec fn rows_markup(rows: Seq<Seq<char>>) -> Seq<char>
    decreases rows.len(),
{
    if rows.len() == 0 {
        Seq::empty()
    } else {
        rows_markup(rows.drop_last()) + row_markup(rows.last())
    }
}

/// One entry of the word list.
pub open spec fn item_markup(word: Seq<char>) -> Seq<char> {
    "<li>"@ + word + "</li>"@
}

/// The entries of the word list in the order given.
pub open spec fn items_markup(words: Seq<Seq<char>>) -> Seq<char>
    decreases words.len(),
{
    if words.len() == 0 {
        Seq::empty()
    } else {
        items_markup(words.drop_last()) + item_markup(words.last())
    }
}

/// The page up to the first table row: the style sheet, the heading, the
/// line that names the theme, and the opening of the table.
pub open spec fn page_top(theme: Seq<char>) -> Seq<char> {
    "<!DOCTYPE html>"@ + "<html>"@ + "<head>"@ + "<style>"@ + "table {border-collapse: collapse;}"@
        + "td{border: 1px solid black;width:20px;height:20px;text-align:center;}"@
        + ".column{float:left;width:50%;}"@ + ".row:after{content:\"\";display:table;clear:both;}"@
        + "</style>"@ + "</head>"@ + "<body>"@ + "<h1>Kyra's Word Search :3</h1>"@
        + "<p>Today's theme is: <strong>"@ + theme + "</strong></p>"@ + "<div class=\"row\">"@
        + "<div class=\"column\">"@ + "<table>"@
}

/// The whole page: the letters `rows` as a table in the left column, the
/// `words` as a list in the right column, in the order given.
pub open spec fn document(rows: Seq<Seq<char>>, words: Seq<Seq<char>>, theme: Seq<char>) -> Seq<
    char,
> {
    page_top(theme) + rows_markup(rows) + "</table>"@ + "</div>"@ + "<div class=\"column\">"@
        + "<ul>"@ + items_markup(words) + "</ul>"@ + "</div>"@ + "</body>"@ + "</html>"@
}

/// The markup of one row of letters.
pub fn row_html(row: &Vec<char>) -> (markup: String)
    ensures
        markup@ == row_markup(row@),
{
    let mut markup = String::from_str("<tr>");
    let mut x: usize = 0;
    while x < row.len()
        invariant
            x <= row.len(),
            markup@ == "<tr>"@ + cells_markup(row@.take(x as int)),
        decreases row.len() - x,
    {
        markup.append("<td>");
        push_char(&mut markup, row[x]);
        markup.append("</td>");
        assert(row@.take(x + 1).drop_last() =~= row@.take(x as int));
        x = x + 1;
    }
    assert(row@.take(x as int) =~= row@);
    markup.append("</tr>");
    markup
}

/// The markup of the rows of letters, top row first.
pub fn rows_html(rows: &Vec<Vec<char>>) -> (markup: String)
    ensures
        markup@ == rows_markup(rows.deep_view()),
{
    let mut markup = String::new();
    let mut y: usize = 0;
    while y < rows.len()
        invariant
            y <= rows.len(),
            markup@ == rows_markup(rows.deep_view().take(y as int)),
        decreases rows.len() - y,
    {
        let row = row_html(&rows[y]);
        markup.append(row.as_str());
        proof {
            let done = rows.deep_view().take(y as int);
            let next = rows.deep_view().take(y + 1);
            assert(next.drop_last() =~= done);
            assert(next.last() =~= rows@[y as int]@);
        }
        y = y + 1;
    }
    assert(rows.deep_view().take(y as int) =~= rows.deep_view());
    markup
}

/// The markup of the word list's entries in the order given.
pub fn items_html(words: &[&str]) -> (markup: String)
    ensures
        markup@ == items_markup(words.deep_view()),
{
    let mut markup = String::new();
    let mut k: usize = 0;
    while k < words.len()
        invariant
            k <= words.len(),
            markup@ == items_markup(words.deep_view().take(k as int)),
        decreases words.len() - k,
    {
        markup.append("<li>");
        markup.append(words[k]);
        markup.append("</li>");
        assert(words.deep_view().take(k + 1).drop_last() =~= words.deep_view().take(k as int));
        k = k + 1;
    }
    assert(words.deep_view().take(k as int) =~= words.deep_view());
    markup
}

/// Renders a finished grid and its words as a web page.
///
/// The grid becomes a table with one cell for each letter. The words are
/// listed beside it in dictionary order, whatever order they are given in.
/// `None` is returned for a grid with an empty cell.
pub fn html(grid: &Grid, words: &[&str], theme: &str) -> (page: Option<String>)
    ensures
        page is Some <==> grid@.complete(),
        page matches Some(text) ==> text@ == document(
            grid@.letters(),
            listed(words.deep_view()),
            theme@,
        ),
{
    let rows = match grid.letters() {
        Some(rows) => rows,
        None => {
            return None;
        },
    };
    let ordered = sort_words(words);
    let table = rows_html(&rows);
    let listing = ordered.as_slice();
    let list = items_html(listing);
    let mut text = String::from_str("<!DOCTYPE html>");
    text.append("<html>");
    text.append("<head>");
    text.append("<style>");
    text.append("table {border-collapse: collapse;}");
    text.append("td{border: 1px solid black;width:20px;height:20px;text-align:center;}");
    text.append(".column{float:left;width:50%;}");
    text.append(".row:after{content:\"\";display:table;clear:both;}");
    text.append("</style>");
    text.append("</head>");
    text.append("<body>");
    text.append("<h1>Kyra's Word Search :3</h1>");
    text.append("<p>Today's theme is: <strong>");
    text.append(theme);
    text.append("</strong></p>");
    text.append("<div class=\"row\">");
    text.append("<div class=\"column\">");
    text.append("<table>");
    text.append(table.as_str());
    text.append("</table>");
    text.append("</div>");
    text.append("<div class=\"column\">");
    text.append("<ul>");
    text.append(list.as_str());
    text.append("</ul>");
    text.append("</div>");
    text.append("</body>");
    text.append("</html>");
    Some(text)
}

} // verus!
