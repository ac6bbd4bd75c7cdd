//! The reader: the lines of a loaded chapter, greedy word wrapping to the
//! width of the screen, pages of visual lines, scrolling, and the editable
//! inputs of the small input windows.
use vstd::prelude::*;
use crate::models::Chapter;
use crate::text::{
    all_ws, char_views, is_blank, is_ws, join, lines, push_char, split_lines, split_words,
    pop_char, str_is_blank, string_of, to_chars, trim, trim_str, views, words, lemma_words_shape,
};

verus! {

/// The chapter's lines with the trailing blank lines removed.
pub open spec fn drop_blank_tail(ls: Seq<Seq<char>>) -> Seq<Seq<char>>
    decreases ls.len(),
{
    if ls.len() > 0 && all_ws(ls.last()) {
        drop_blank_tail(ls.drop_last())
    } else {
        ls
    }
}

/// The lines a chapter's text is shown as.
pub open spec fn chapter_lines(content: Seq<char>) -> Seq<Seq<char>> {
    drop_blank_tail(lines(content))
}

/// Greedy wrapping of `ws` into rows of at most `width` characters: the
/// finished rows and the row being filled.
pub open spec fn wrap_acc(ws: Seq<Seq<char>>, width: nat) -> (Seq<Seq<char>>, Seq<char>)
    decreases ws.len(),
{
    if ws.len() == 0 {
        (seq![], seq![])
    } else {
        let (done, cur) = wrap_acc(ws.drop_last(), width);
        let w = ws.last();
        if cur.len() == 0 {
            (done, w)
        } else if cur.len() + 1 + w.len() <= width {
            (done, cur + seq![' '] + w)
        } else {
            (done.push(cur), w)
        }
    }
}

/// The rows that greedy wrapping of `ws` gives.
pub open spec fn wrap_words(ws: Seq<Seq<char>>, width: nat) -> Seq<Seq<char>> {
    let (done, cur) = wrap_acc(ws, width);
    if cur.len() > 0 {
        done.push(cur)
    } else {
        done
    }
}

/// The rows a line is shown as at `width` columns: the line itself at
/// width zero, one empty row for a blank line, else its words wrapped
/// greedily with single spaces between them.
pub open spec fn wrapped(line: Seq<char>, width: nat) -> Seq<Seq<char>> {
    if width == 0 {
        seq![line]
    } else if all_ws(line) {
        seq![seq![]]
    } else {
        wrap_words(words(line), width)
    }
}

/// The rows of one line on the page (an empty row where wrapping gave none).
pub open spec fn line_rows(line: Seq<char>, width: nat) -> Seq<Seq<char>> {
    if wrapped(line, width).len() == 0 {
        seq![seq![]]
    } else {
        wrapped(line, width)
    }
}

/// All rows of the text, line after line.
pub open spec fn visual_lines(content: Seq<Seq<char>>, width: nat) -> Seq<Seq<char>>
    decreases content.len(),
{
    if content.len() == 0 {
        seq![]
    } else {
        visual_lines(content.drop_last(), width) + line_rows(content.last(), width)
    }
}

/// The number of rows the text wraps to, counted line by line.
pub open spec fn visual_count(content: Seq<Seq<char>>, width: nat) -> nat
    decreases content.len(),
{
    if content.len() == 0 {
        0
    } else {
        visual_count(content.drop_last(), width) + wrapped(content.last(), width).len()
    }
}

/// `n / d` rounded up.
pub open spec fn ceil_div(n: nat, d: nat) -> nat {
    if n % d == 0 {
        n / d
    } else {
        n / d + 1
    }
}

/// The rows a page holds on a screen `height` rows high (four rows go to
/// the frame and the title).
pub open spec fn rows_per_page(height: nat) -> nat {
    if height >= 4 {
        (height - 4) as nat
    } else {
        0
    }
}

/// The number of pages `rows` rows fill at `lpp` rows a page; never fewer
/// than one.
pub open spec fn page_count(rows: nat, lpp: nat) -> nat {
    if lpp == 0 || rows == 0 {
        1
    } else {
        ceil_div(rows, lpp)
    }
}

/// The rows shown on page `page` (clamped to the last page); an empty
/// text shows one empty row, and a screen with no room shows nothing.
pub open spec fn page_rows(vl: Seq<Seq<char>>, lpp: nat, page: nat) -> Seq<Seq<char>> {
    if lpp == 0 {
        seq![]
    } else {
        let rows = if vl.len() == 0 {
            seq![seq![]]
        } else {
            vl
        };
        let total = ceil_div(rows.len(), lpp);
        let idx = if page < total - 1 {
            page
        } else {
            (total - 1) as nat
        };
        let start = idx * lpp;
        let end = if start + lpp < rows.len() {
            start + lpp
        } else {
            rows.len()
        };
        rows.subrange(start as int, end as int)
    }
}

/// Appends the characters of `src`.
fn append_chars(dst: &mut Vec<char>, src: &Vec<char>)
    ensures
        final(dst)@ == old(dst)@ + src@,
{
    let mut i: usize = 0;
    while i < src.len()
        invariant
            i <= src.len(),
            dst@ == old(dst)@ + src@.take(i as int),
        decreases src.len() - i,
    {
        dst.push(src[i]);
        assert(src@.take(i + 1) == src@.take(i as int).push(src@[i as int]));
        i = i + 1;
    }
    assert(src@.take(src.len() as int) == src@);
}

proof fn lemma_wrap_acc_step(ws: Seq<Seq<char>>, i: int, width: nat)
    requires
        0 <= i < ws.len(),
    ensures
        wrap_acc(ws.take(i + 1), width) == ({
            let (done, cur) = wrap_acc(ws.take(i), width);
            let w = ws[i];
            if cur.len() == 0 {
                (done, w)
            } else if cur.len() + 1 + w.len() <= width {
                (done, cur + seq![' '] + w)
            } else {
                (done.push(cur), w)
            }
        }),
{
    assert(ws.take(i + 1).drop_last() == ws.take(i));
    assert(ws.take(i + 1).last() == ws[i]);
}

proof fn lemma_wrap_acc_done_len(ws: Seq<Seq<char>>, width: nat)
    ensures
        wrap_acc(ws, width).0.len() <= ws.len(),
        ws.len() == 0 ==> wrap_acc(ws, width).1.len() == 0,
        wrap_acc(ws, width).0.len() < ws.len() || ws.len() == 0,
    decreases ws.len(),
{
    if ws.len() > 0 {
        lemma_wrap_acc_done_len(ws.drop_last(), width);
    }
}

/// The rows of a line at `width` columns (`wrap_line` of the screen).
pub fn wrap_line(line: &str, width: usize) -> (parts: Vec<String>)
    ensures
        views(parts@) == wrapped(line@, width as nat),
{
    if width == 0 {
        let r = vec![line.to_owned()];
        assert(views(r@) =~= seq![line@]);
        return r;
    }
    if str_is_blank(line) {
        proof {
            crate::text::lemma_words_blank(line@);
        }
        let r = vec![String::new()];
        assert(views(r@) =~= seq![Seq::<char>::empty()]);
        return r;
    }
    proof {
        crate::text::lemma_words_blank(line@);
    }
    let v = to_chars(line);
    let ws = split_words(&v);
    let ghost wsv = char_views(ws@);
    let mut parts: Vec<String> = Vec::new();
    let mut cur: Vec<char> = Vec::new();
    let mut i: usize = 0;
    assert(wsv.take(0) =~= Seq::<Seq<char>>::empty());
    while i < ws.len()
        invariant
            width > 0,
            i <= ws.len(),
            wsv == char_views(ws@),
            wrap_acc(wsv.take(i as int), width as nat) == (views(parts@), cur@),
        decreases ws.len() - i,
    {
        proof {
            lemma_wrap_acc_step(wsv, i as int, width as nat);
        }
        let w = &ws[i];
        assert(w@ == wsv[i as int]);
        if cur.len() == 0 {
            cur = Vec::new();
            append_chars(&mut cur, w);
        } else if cur.len() < width && w.len() <= width - cur.len() - 1 {
            cur.push(' ');
            append_chars(&mut cur, w);
        } else {
            let ghost before = parts@;
            parts.push(string_of(&cur));
            assert(views(parts@) =~= views(before).push(cur@));
            cur = Vec::new();
            append_chars(&mut cur, w);
        }
        i = i + 1;
    }
    assert(wsv.take(ws.len() as int) =~= wsv);
    if cur.len() > 0 {
        let ghost before = parts@;
        parts.push(string_of(&cur));
        assert(views(parts@) =~= views(before).push(cur@));
    }
    parts
}

/// The number of rows a line takes at `width` columns: as many as
/// `wrap_line` gives.
pub fn wrap_line_count(line: &str, width: usize) -> (count: usize)
    ensures
        count == wrapped(line@, width as nat).len(),
{
    if width == 0 {
        return 1;
    }
    if str_is_blank(line) {
        proof {
            crate::text::lemma_words_blank(line@);
        }
        return 1;
    }
    proof {
        crate::text::lemma_words_blank(line@);
    }
    let v = to_chars(line);
    let ws = split_words(&v);
    let ghost wsv = char_views(ws@);
    let mut count: usize = 0;
    let mut cur: usize = 0;
    let mut i: usize = 0;
    assert(wsv.take(0) =~= Seq::<Seq<char>>::empty());
    while i < ws.len()
        invariant
            width > 0,
            i <= ws.len(),
            wsv == char_views(ws@),
            wrap_acc(wsv.take(i as int), width as nat).0.len() == count,
            wrap_acc(wsv.take(i as int), width as nat).1.len() == cur,
            count <= i,
            cur <= usize::MAX,
        decreases ws.len() - i,
    {
        proof {
            lemma_wrap_acc_step(wsv, i as int, width as nat);
            lemma_wrap_acc_done_len(wsv.take(i as int), width as nat);
        }
        let wlen = ws[i].len();
        assert(wlen == wsv[i as int].len());
        if cur == 0 {
            cur = wlen;
        } else if cur < width && wlen <= width - cur - 1 {
            cur = cur + 1 + wlen;
        } else {
            count = count + 1;
            cur = wlen;
        }
        i = i + 1;
    }
    assert(wsv.take(ws.len() as int) =~= wsv);
    proof {
        lemma_wrap_acc_done_len(wsv, width as nat);
    }
    if cur > 0 {
        count = count + 1;
    }
    count
}

proof fn lemma_ceil_div(n: nat, d: nat)
    requires
        d >= 1,
    ensures
        n >= 1 ==> ceil_div(n, d) >= 1,
        n >= 1 ==> (ceil_div(n, d) - 1) * d < n,
        ceil_div(n, d) * d >= n,
        ceil_div(n, d) <= n,
        n % d != 0 ==> n / d < n,
{
    vstd::arithmetic::div_mod::lemma_fundamental_div_mod(n as int, d as int);
    let q = n / d;
    let r = n % d;
    assert(0 <= r < d);
    assert(n == d * q + r);
    if r == 0 {
        assert(ceil_div(n, d) == q);
        assert(q * d == n) by (nonlinear_arith)
            requires
                n == d * q + r,
                r == 0,
        ;
        if n >= 1 {
            assert(q >= 1) by (nonlinear_arith)
                requires
                    n == d * q,
                    n >= 1,
                    d >= 1,
                    q >= 0,
            ;
            assert((q - 1) * d < n) by (nonlinear_arith)
                requires
                    q * d == n,
                    d >= 1,
            ;
        }
        assert(q <= n) by (nonlinear_arith)
            requires
                n == d * q,
                d >= 1,
                q >= 0,
        ;
    } else {
        assert(ceil_div(n, d) == q + 1);
        assert((q + 1) * d >= n) by (nonlinear_arith)
            requires
                n == d * q + r,
                r < d,
        ;
        assert(q * d < n) by (nonlinear_arith)
            requires
                n == d * q + r,
                r > 0,
        ;
        assert(d >= 2);
        assert(q + 1 <= n) by (nonlinear_arith)
            requires
                n == d * q + r,
                r >= 1,
                d >= 2,
                q >= 0,
        ;
        assert(q < n) by (nonlinear_arith)
            requires
                n == d * q + r,
                r >= 1,
                d >= 2,
                q >= 0,
        ;
    }
}

/// `ceil_div(n, d)` computed without overflow.
fn ceil_div_exec(n: usize, d: usize) -> (r: usize)
    requires
        d >= 1,
    ensures
        r == ceil_div(n as nat, d as nat),
{
    proof {
        lemma_ceil_div(n as nat, d as nat);
    }
    let q = n / d;
    if n % d == 0 {
        q
    } else {
        q + 1
    }
}

/// What the reader shows: the loaded chapter and where in it the reader is.
pub struct ReaderState {
    /// The chapter's lines, without trailing blank lines.
    pub content: Vec<String>,
    pub scroll: usize,
    pub page: usize,
    pub chapter_title: String,
    pub book_title: String,
    pub book_url: String,
    pub current_chapter_idx: usize,
    pub loading: bool,
}

impl ReaderState {
    /// The loaded lines.
    pub open spec fn lines_view(&self) -> Seq<Seq<char>> {
        views(self.content@)
    }

    /// The number of pages the chapter takes on a screen of the given size
    /// (the row count is capped at `usize::MAX`).
    pub open spec fn page_total(&self, width: nat, height: nat) -> nat {
        let n = visual_count(self.lines_view(), width);
        page_count(
            if n <= usize::MAX {
                n
            } else {
                usize::MAX as nat
            },
            rows_per_page(height),
        )
    }

    /// An empty reader.
    pub fn new() -> (r: Self)
        ensures
            r.content@.len() == 0,
            r.scroll == 0,
            r.page == 0,
            r.chapter_title@.len() == 0,
            r.book_title@.len() == 0,
            r.book_url@.len() == 0,
            r.current_chapter_idx == 0,
            !r.loading,
    {
        ReaderState {
            content: Vec::new(),
            scroll: 0,
            page: 0,
            chapter_title: String::new(),
            book_title: String::new(),
            book_url: String::new(),
            current_chapter_idx: 0,
            loading: false,
        }
    }

    /// Shows a chapter from its start: its text is split into lines and
    /// trailing blank lines are dropped.
    pub fn load(
        &mut self,
        book_title: String,
        book_url: String,
        chapter_title: String,
        content: String,
        chapter_idx: usize,
    )
        ensures
            final(self).lines_view() == chapter_lines(content@),
            final(self).book_title == book_title,
            final(self).book_url == book_url,
            final(self).chapter_title == chapter_title,
            final(self).scroll == 0,
            final(self).page == 0,
            final(self).current_chapter_idx == chapter_idx,
            !final(self).loading,
    {
        self.book_title = book_title;
        self.book_url = book_url;
        self.chapter_title = chapter_title;
        let v = to_chars(content.as_str());
        let mut ls = split_lines(&v);
        while ls.len() > 0
            invariant
                drop_blank_tail(char_views(ls@)) == chapter_lines(v@),
            ensures
                drop_blank_tail(char_views(ls@)) == chapter_lines(v@),
                ls.len() == 0 || !all_ws(ls@.last()@),
            decreases ls.len(),
        {
            let last = ls.len() - 1;
            if !is_blank(&ls[last]) {
                break;
            }
            let ghost before = char_views(ls@);
            ls.pop();
            assert(char_views(ls@) =~= before.drop_last());
        }
        assert(drop_blank_tail(char_views(ls@)) == char_views(ls@)) by {
            if ls.len() > 0 {
                assert(char_views(ls@).last() == ls@.last()@);
            }
        }
        let mut out: Vec<String> = Vec::new();
        let mut i: usize = 0;
        while i < ls.len()
            invariant
                i <= ls.len(),
                views(out@) == char_views(ls@).take(i as int),
            decreases ls.len() - i,
        {
            let ghost before = views(out@);
            out.push(string_of(&ls[i]));
            assert(views(out@) =~= before.push(ls@[i as int]@));
            assert(char_views(ls@).take(i + 1) =~= char_views(ls@).take(i as int).push(
                ls@[i as int]@,
            ));
            i = i + 1;
        }
        assert(char_views(ls@).take(ls.len() as int) =~= char_views(ls@));
        self.content = out;
        self.scroll = 0;
        self.page = 0;
        self.current_chapter_idx = chapter_idx;
        self.loading = false;
    }

    /// The rows a page holds on a screen `area_height` rows high.
    pub fn lines_per_page(area_height: u16) -> (r: usize)
        ensures
            r == rows_per_page(area_height as nat),
    {
        if area_height >= 4 {
            (area_height - 4) as usize
        } else {
            0
        }
    }

    /// The number of pages the chapter takes on a screen of the given size.
    pub fn total_pages_for(&self, area_width: u16, area_height: u16) -> (r: usize)
        ensures
            r == self.page_total(area_width as nat, area_height as nat),
            r >= 1,
    {
        let lpp = Self::lines_per_page(area_height);
        if lpp == 0 {
            return 1;
        }
        let width = area_width as usize;
        let ghost lv = self.lines_view();
        let mut total: usize = 0;
        let mut i: usize = 0;
        while i < self.content.len()
            invariant
                i <= self.content.len(),
                lv == self.lines_view(),
                total == (if visual_count(lv.take(i as int), width as nat) <= usize::MAX {
                    visual_count(lv.take(i as int), width as nat)
                } else {
                    usize::MAX as nat
                }),
            decreases self.content.len() - i,
        {
            let c = wrap_line_count(self.content[i].as_str(), width);
            assert(lv.take(i + 1).drop_last() == lv.take(i as int));
            assert(lv.take(i + 1).last() == self.content@[i as int]@);
            if total > usize::MAX - c {
                total = usize::MAX;
            } else {
                total = total + c;
            }
            i = i + 1;
        }
        assert(lv.take(self.content.len() as int) == lv);
        let pages = ceil_div_exec(total, lpp);
        proof {
            lemma_ceil_div(total as nat, lpp as nat);
        }
        if pages == 0 {
            1
        } else {
            pages
        }
    }

    /// The number of pages at the default width of 80 columns.
    pub fn total_pages(&self, area_height: u16) -> (r: usize)
        ensures
            r == self.page_total(80, area_height as nat),
    {
        self.total_pages_for(80, area_height)
    }

    /// The rows of the current page (the last page when the current one is
    /// past the end).
    pub fn page_lines_wrapped(&self, area_width: u16, area_height: u16) -> (r: Vec<String>)
        ensures
            views(r@) == page_rows(
                visual_lines(self.lines_view(), area_width as nat),
                rows_per_page(area_height as nat),
                self.page as nat,
            ),
    {
        let lpp = Self::lines_per_page(area_height);
        if lpp == 0 {
            let r: Vec<String> = Vec::new();
            assert(views(r@) =~= Seq::<Seq<char>>::empty());
            return r;
        }
        let width = area_width as usize;
        let ghost lv = self.lines_view();
        let mut vlines: Vec<String> = Vec::new();
        let mut i: usize = 0;
        assert(lv.take(0) =~= Seq::<Seq<char>>::empty());
        while i < self.content.len()
            invariant
                i <= self.content.len(),
                lv == self.lines_view(),
                views(vlines@) == visual_lines(lv.take(i as int), width as nat),
            decreases self.content.len() - i,
        {
            let parts = wrap_line(self.content[i].as_str(), width);
            assert(lv.take(i + 1).drop_last() == lv.take(i as int));
            assert(lv.take(i + 1).last() == self.content@[i as int]@);
            let ghost before = views(vlines@);
            if parts.len() == 0 {
                vlines.push(String::new());
                assert(views(vlines@) =~= before + seq![Seq::<char>::empty()]);
            } else {
                let mut j: usize = 0;
                while j < parts.len()
                    invariant
                        j <= parts.len(),
                        views(vlines@) == before + views(parts@).take(j as int),
                    decreases parts.len() - j,
                {
                    let ghost mid = views(vlines@);
                    vlines.push(parts[j].clone());
                    assert(views(vlines@) =~= mid.push(parts@[j as int]@));
                    assert(views(parts@).take(j + 1) =~= views(parts@).take(j as int).push(
                        parts@[j as int]@,
                    ));
                    j = j + 1;
                }
                assert(views(parts@).take(parts.len() as int) =~= views(parts@));
            }
            i = i + 1;
        }
        assert(lv.take(self.content.len() as int) == lv);
        let ghost vl = views(vlines@);
        if vlines.len() == 0 {
            vlines.push(String::new());
            assert(views(vlines@) =~= seq![Seq::<char>::empty()]);
        }
        let n = vlines.len();
        let total = ceil_div_exec(n, lpp);
        proof {
            lemma_ceil_div(n as nat, lpp as nat);
        }
        let idx = if self.page < total - 1 {
            self.page
        } else {
            total - 1
        };
        assert(idx * lpp <= (total - 1) * lpp) by (nonlinear_arith)
            requires
                idx <= total - 1,
                lpp >= 1,
        ;
        let start = idx * lpp;
        let end = if lpp < n - start {
            start + lpp
        } else {
            n
        };
        let mut out: Vec<String> = Vec::new();
        let mut k: usize = start;
        while k < end
            invariant
                start <= k <= end <= n == vlines.len(),
                views(out@) == views(vlines@).subrange(start as int, k as int),
            decreases end - k,
        {
            let ghost before = views(out@);
            out.push(vlines[k].clone());
            assert(views(out@) =~= before.push(vlines@[k as int]@));
            assert(views(vlines@).subrange(start as int, k + 1) =~= views(vlines@).subrange(
                start as int,
                k as int,
            ).push(vlines@[k as int]@));
            k = k + 1;
        }
        out
    }

    /// Goes to the next page unless the current one is the last.
    pub fn next_page(&mut self, area_width: u16, area_height: u16)
        ensures
            final(self).page == (if old(self).page + 1 < old(self).page_total(
                area_width as nat,
                area_height as nat,
            ) {
                old(self).page + 1
            } else {
                old(self).page as int
            }),
            old(self).page < old(self).page_total(area_width as nat, area_height as nat)
                ==> final(self).page < old(self).page_total(area_width as nat, area_height as nat),
            *final(self) == (ReaderState { page: final(self).page, ..*old(self) }),
    {
        let total = self.total_pages_for(area_width, area_height);
        if self.page < total - 1 {
            self.page = self.page + 1;
        }
    }

    /// Goes to the previous page unless the current one is the first.
    pub fn prev_page(&mut self, area_width: u16, area_height: u16)
        ensures
            final(self).page == (if old(self).page > 0 {
                old(self).page - 1
            } else {
                0
            }),
            *final(self) == (ReaderState { page: final(self).page, ..*old(self) }),
    {
        if self.page > 0 {
            self.page = self.page - 1;
        }
    }

    /// Scrolls down by `amount` lines, stopping at the last line.
    pub fn scroll_down(&mut self, amount: usize)
        ensures
            final(self).scroll == (if old(self).scroll + amount < old(self).content@.len() - 1 {
                old(self).scroll + amount
            } else if old(self).content@.len() > 0 {
                old(self).content@.len() - 1
            } else {
                0
            }),
            *final(self) == (ReaderState { scroll: final(self).scroll, ..*old(self) }),
    {
        let last = if self.content.len() > 0 {
            self.content.len() - 1
        } else {
            0
        };
        if self.scroll < last && amount < last - self.scroll {
            self.scroll = self.scroll + amount;
        } else {
            self.scroll = last;
        }
    }

    /// Scrolls up by `amount` lines, stopping at the first line.
    pub fn scroll_up(&mut self, amount: usize)
        ensures
            final(self).scroll == (if old(self).scroll >= amount {
                old(self).scroll - amount
            } else {
                0
            }),
            *final(self) == (ReaderState { scroll: final(self).scroll, ..*old(self) }),
    {
        if self.scroll >= amount {
            self.scroll = self.scroll - amount;
        } else {
            self.scroll = 0;
        }
    }
}

/// One line of an input window: free text, or a chapter picked from a list.
pub enum WinInput {
    RawText(String),
    ChapterItem(Chapter),
}

impl WinInput {
    /// The text the input shows: the typed text, or the chapter's title.
    pub open spec fn text(&self) -> Seq<char> {
        match self {
            WinInput::RawText(s) => s@,
            WinInput::ChapterItem(c) => c.title@,
        }
    }

    /// Whether the input shows no text.
    pub fn is_empty(&self) -> (r: bool)
        ensures
            r == (self.text().len() == 0),
    {
        match self {
            WinInput::RawText(s) => s.as_str().is_empty(),
            WinInput::ChapterItem(c) => c.title.as_str().is_empty(),
        }
    }

    /// Deletes the last typed character; a picked chapter is left alone.
    pub fn pop(&mut self) -> (r: Option<char>)
        ensures
            match *old(self) {
                WinInput::RawText(s) => match r {
                    Some(c) => s@.len() > 0 && c == s@.last() && (*final(self)) is RawText
                        && final(self).text() == s@.drop_last(),
                    None => s@.len() == 0 && (*final(self)) is RawText && final(self).text() == s@,
                },
                WinInput::ChapterItem(_) => r is None && *final(self) == *old(self),
            },
    {
        match self {
            WinInput::RawText(s) => pop_char(s),
            WinInput::ChapterItem(_) => None,
        }
    }

    /// Types a character; a picked chapter is left alone.
    pub fn push(&mut self, c: char)
        ensures
            match *old(self) {
                WinInput::RawText(s) => (*final(self)) is RawText && final(self).text() == s@.push(c),
                WinInput::ChapterItem(_) => *final(self) == *old(self),
            },
    {
        match self {
            WinInput::RawText(s) => push_char(s, c),
            WinInput::ChapterItem(_) => {},
        }
    }

    /// The shown text without surrounding whitespace.
    pub fn trim_to_string(&self) -> (r: String)
        ensures
            r@ == trim(self.text()),
    {
        match self {
            WinInput::RawText(s) => trim_str(s.as_str()),
            WinInput::ChapterItem(c) => trim_str(c.title.as_str()),
        }
    }

    /// The shown text.
    pub fn to_string(&self) -> (r: String)
        ensures
            r@ == self.text(),
    {
        match self {
            WinInput::RawText(s) => s.clone(),
            WinInput::ChapterItem(c) => c.title.clone(),
        }
    }
}


proof fn lemma_join_push(s: Seq<Seq<char>>, x: Seq<char>, sep: Seq<char>)
    ensures
        join(s.push(x), sep) == (if s.len() == 0 {
            x
        } else {
            join(s, sep) + sep + x
        }),
{
    assert(s.push(x).drop_last() =~= s);
    assert(s.push(x).last() == x);
    if s.len() == 0 {
        assert(s.push(x)[0] == x);
    }
}

/// The rows wrapping has finished so far, with the row being filled.
spec fn wrap_rows_so_far(ws: Seq<Seq<char>>, width: nat) -> Seq<Seq<char>> {
    let (done, cur) = wrap_acc(ws, width);
    if ws.len() == 0 {
        done
    } else {
        done.push(cur)
    }
}

proof fn lemma_wrap_acc_shape(ws: Seq<Seq<char>>, width: nat)
    requires
        forall|k: int| 0 <= k < ws.len() ==> (#[trigger] ws[k]).len() > 0,
    ensures
        ws.len() > 0 ==> wrap_acc(ws, width).1.len() > 0,
        ws.len() == 0 ==> wrap_acc(ws, width).0.len() == 0 && wrap_acc(ws, width).1.len() == 0,
        forall|k: int|
            0 <= k < wrap_acc(ws, width).0.len() ==> (#[trigger] wrap_acc(ws, width).0[k]).len()
                <= width || ws.contains(wrap_acc(ws, width).0[k]),
        wrap_acc(ws, width).1.len() <= width || ws.contains(wrap_acc(ws, width).1),
        join(wrap_rows_so_far(ws, width), seq![' ']) == join(ws, seq![' ']),
    decreases ws.len(),
{
    if ws.len() > 0 {
        let p = ws.drop_last();
        lemma_wrap_acc_shape(p, width);
        let done = wrap_acc(p, width).0;
        let cur = wrap_acc(p, width).1;
        let w = ws.last();
        let sep = seq![' '];
        assert(forall|k: int| 0 <= k < p.len() ==> p[k] == ws[k]);
        assert(ws.contains(w)) by {
            assert(ws[ws.len() - 1] == w);
        }
        assert(forall|x: Seq<char>| p.contains(x) ==> ws.contains(x)) by {
            assert forall|x: Seq<char>| p.contains(x) implies ws.contains(x) by {
                let k = choose|k: int| 0 <= k < p.len() && p[k] == x;
                assert(ws[k] == x);
            }
        }
        lemma_join_push(p.drop_last(), p.last(), sep);
        if p.len() > 0 {
            assert(p.drop_last().push(p.last()) =~= p);
        }
        assert(join(ws, sep) == (if p.len() == 0 {
            w
        } else {
            join(p, sep) + sep + w
        })) by {
            lemma_join_push(p, w, sep);
            assert(p.push(w) =~= ws);
        }
        if cur.len() == 0 {
            assert(p.len() == 0);
            assert(wrap_rows_so_far(ws, width) =~= seq![w]);
            assert(ws =~= seq![w]);
        } else if cur.len() + 1 + w.len() <= width {
            let c2 = cur + sep + w;
            assert(wrap_acc(ws, width) == (done, c2));
            lemma_join_push(done, cur, sep);
            lemma_join_push(done, c2, sep);
            if done.len() == 0 {
                assert(join(ws, sep) =~= c2);
            } else {
                assert(join(done, sep) + sep + cur + sep + w =~= join(done, sep) + sep + c2);
            }
        } else {
            assert(wrap_acc(ws, width) == (done.push(cur), w));
            lemma_join_push(done.push(cur), w, sep);
            assert forall|k: int|
                0 <= k < done.push(cur).len() implies (#[trigger] done.push(cur)[k]).len() <= width
                || ws.contains(done.push(cur)[k]) by {
                if k < done.len() {
                    assert(done.push(cur)[k] == done[k]);
                }
            }
        }
    }
}

/// Wrapping always gives at least one row.
pub proof fn lemma_wrapped_nonempty(line: Seq<char>, width: nat)
    ensures
        wrapped(line, width).len() >= 1,
{
    if width > 0 && !all_ws(line) {
        lemma_words_shape(line);
        crate::text::lemma_words_blank(line);
        lemma_wrap_acc_shape(words(line), width);
    }
}

/// At a positive width every row fits the width, except a row that is one
/// word too long to fit, which is shown whole.
pub proof fn lemma_wrapped_fits(line: Seq<char>, width: nat)
    requires
        width > 0,
    ensures
        forall|k: int|
            0 <= k < wrapped(line, width).len() ==> (#[trigger] wrapped(line, width)[k]).len()
                <= width || words(line).contains(wrapped(line, width)[k]),
{
    if !all_ws(line) {
        let ws = words(line);
        lemma_words_shape(line);
        crate::text::lemma_words_blank(line);
        lemma_wrap_acc_shape(ws, width);
        let done = wrap_acc(ws, width).0;
        let cur = wrap_acc(ws, width).1;
        assert(wrapped(line, width) == done.push(cur));
        assert forall|k: int| 0 <= k < done.push(cur).len() implies (#[trigger] done.push(
            cur,
        )[k]).len() <= width || ws.contains(done.push(cur)[k]) by {
            if k < done.len() {
                assert(done.push(cur)[k] == done[k]);
            }
        }
    }
}

/// Wrapping loses no text: at a positive width, the rows of a line that is
/// not blank, joined with single spaces, are its words joined with single
/// spaces.
pub proof fn lemma_wrapped_keeps_words(line: Seq<char>, width: nat)
    requires
        width > 0,
        !all_ws(line),
    ensures
        join(wrapped(line, width), seq![' ']) == join(words(line), seq![' ']),
{
    let ws = words(line);
    lemma_words_shape(line);
    crate::text::lemma_words_blank(line);
    lemma_wrap_acc_shape(ws, width);
    assert(wrapped(line, width) == wrap_rows_so_far(ws, width));
}

/// The rows are the words `ws` cut at the positions `cuts` (first 0, last
/// the number of words, rising), each piece joined with single spaces; and
/// no row but the last has room for the first word of the row after it.
pub open spec fn greedy_rows(ws: Seq<Seq<char>>, width: nat, rows: Seq<Seq<char>>, cuts: Seq<int>) -> bool {
    &&& cuts.len() == rows.len() + 1
    &&& cuts[0] == 0
    &&& cuts[rows.len() as int] == ws.len()
    &&& forall|i: int, j: int| 0 <= i < j <= rows.len() ==> #[trigger] cuts[i] < #[trigger] cuts[j]
    &&& forall|k: int|
        0 <= k < rows.len() ==> #[trigger] rows[k] == join(ws.subrange(cuts[k], cuts[k + 1]), seq![' '])
    &&& forall|k: int|
        0 <= k < rows.len() - 1 ==> (#[trigger] rows[k]).len() + 1 + ws[cuts[k + 1]].len() > width
}

proof fn lemma_wrap_acc_greedy(ws: Seq<Seq<char>>, width: nat) -> (cuts: Seq<int>)
    requires
        ws.len() > 0,
        forall|k: int| 0 <= k < ws.len() ==> (#[trigger] ws[k]).len() > 0,
    ensures
        greedy_rows(ws, width, wrap_acc(ws, width).0.push(wrap_acc(ws, width).1), cuts),
    decreases ws.len(),
{
    let n = ws.len() as int;
    let p = ws.drop_last();
    let w = ws.last();
    let sep = seq![' '];
    assert(forall|k: int| 0 <= k < p.len() ==> p[k] == ws[k]);
    if p.len() == 0 {
        let cuts = seq![0int, 1int];
        let rows = wrap_acc(ws, width).0.push(wrap_acc(ws, width).1);
        assert(rows =~= seq![w]);
        assert(ws.subrange(0, 1) =~= seq![w]);
        assert(cuts[0] == 0 && cuts[1] == 1);
        assert(rows[0] == join(ws.subrange(cuts[0], cuts[1]), sep));
        cuts
    } else {
        let pc = lemma_wrap_acc_greedy(p, width);
        lemma_wrap_acc_shape(p, width);
        let done = wrap_acc(p, width).0;
        let cur = wrap_acc(p, width).1;
        let rows = done.push(cur);
        let m = rows.len() as int;
        assert(forall|a: int, b: int| 0 <= a <= b <= n - 1 ==> #[trigger] p.subrange(a, b) =~= ws.subrange(a, b));
        assert forall|k: int| 0 <= k <= m implies 0 <= #[trigger] pc[k] <= p.len() by {
            if 0 < k {
                assert(pc[0] < pc[k]);
            }
            if k < m {
                assert(pc[k] < pc[m]);
            }
        }
        assert(pc[m - 1] < pc[m]);
        if cur.len() + 1 + w.len() <= width {
            let cuts = pc.update(m, n);
            let c = pc[m - 1];
            let nrows = wrap_acc(ws, width).0.push(wrap_acc(ws, width).1);
            assert(nrows =~= done.push(cur + sep + w));
            assert(rows[m - 1] == cur);
            assert(ws.subrange(c, n) =~= ws.subrange(c, n - 1).push(w));
            lemma_join_push(ws.subrange(c, n - 1), w, sep);
            assert(p.subrange(c, n - 1) =~= ws.subrange(c, n - 1));
            assert forall|a: int, b: int| 0 <= a < b <= nrows.len() implies #[trigger] cuts[a] < #[trigger] cuts[b] by {
                assert(cuts[a] == pc[a]);
                if b < m {
                    assert(pc[a] < pc[b]);
                } else {
                    assert(0 <= pc[a] <= p.len());
                }
            }
            assert forall|k: int| 0 <= k < nrows.len() implies #[trigger] nrows[k] == join(
                ws.subrange(cuts[k], cuts[k + 1]),
                sep,
            ) by {
                if k < m - 1 {
                    assert(nrows[k] == rows[k]);
                    assert(0 <= pc[k] <= p.len());
                    assert(0 <= pc[k + 1] <= p.len());
                    assert(pc[k] < pc[k + 1]);
                    assert(p.subrange(pc[k], pc[k + 1]) =~= ws.subrange(pc[k], pc[k + 1]));
                }
            }
            assert forall|k: int| 0 <= k < nrows.len() - 1 implies (#[trigger] nrows[k]).len() + 1
                + ws[cuts[k + 1]].len() > width by {
                assert(nrows[k] == rows[k]);
                assert(0 <= pc[k + 1] < p.len()) by {
                    assert(pc[k + 1] < pc[m]);
                }
                assert(rows[k].len() + 1 + p[pc[k + 1]].len() > width);
            }
            cuts
        } else {
            let cuts = pc.push(n);
            let nrows = wrap_acc(ws, width).0.push(wrap_acc(ws, width).1);
            assert(nrows =~= rows.push(w));
            assert(ws.subrange(n - 1, n) =~= seq![w]);
            assert forall|a: int, b: int| 0 <= a < b <= nrows.len() implies #[trigger] cuts[a] < #[trigger] cuts[b] by {
                assert(cuts[a] == pc[a]);
                if b <= m {
                    assert(pc[a] < pc[b]);
                } else {
                    assert(0 <= pc[a] <= p.len());
                }
            }
            assert forall|k: int| 0 <= k < nrows.len() implies #[trigger] nrows[k] == join(
                ws.subrange(cuts[k], cuts[k + 1]),
                sep,
            ) by {
                if k < m {
                    assert(nrows[k] == rows[k]);
                    assert(0 <= pc[k] <= p.len());
                    assert(0 <= pc[k + 1] <= p.len());
                    assert(pc[k] < pc[k + 1]);
                    assert(p.subrange(pc[k], pc[k + 1]) =~= ws.subrange(pc[k], pc[k + 1]));
                } else {
                    assert(nrows[k] == w);
                }
            }
            assert forall|k: int| 0 <= k < nrows.len() - 1 implies (#[trigger] nrows[k]).len() + 1
                + ws[cuts[k + 1]].len() > width by {
                assert(nrows[k] == rows[k]);
                if k < m - 1 {
                    assert(0 <= pc[k + 1] < p.len()) by {
                        assert(pc[k + 1] < pc[m]);
                    }
                    assert(rows[k].len() + 1 + p[pc[k + 1]].len() > width);
                } else {
                    assert(rows[k] == cur);
                    assert(ws[cuts[k + 1]] == w);
                }
            }
            cuts
        }
    }
}

/// Wrapping is greedy: at a positive width, the rows of a line that is not
/// blank are its words cut into runs joined by single spaces, and each row
/// but the last is full, having no room for the next row's first word.
pub proof fn lemma_wrapped_greedy(line: Seq<char>, width: nat) -> (cuts: Seq<int>)
    requires
        width > 0,
        !all_ws(line),
    ensures
        greedy_rows(words(line), width, wrapped(line, width), cuts),
{
    let ws = words(line);
    lemma_words_shape(line);
    crate::text::lemma_words_blank(line);
    lemma_wrap_acc_shape(ws, width);
    lemma_wrap_acc_greedy(ws, width)
}

/// Counting rows line by line gives the number of rows the pages are cut
/// from, so `total_pages_for` counts exactly the pages
/// `page_lines_wrapped` shows.
pub proof fn lemma_visual_count(content: Seq<Seq<char>>, width: nat)
    ensures
        visual_lines(content, width).len() == visual_count(content, width),
    decreases content.len(),
{
    if content.len() > 0 {
        lemma_visual_count(content.drop_last(), width);
        lemma_wrapped_nonempty(content.last(), width);
    }
}


/// Paging loses and repeats no row: row `r` of the text is on page
/// `r / lpp`, at position `r % lpp`, and that page is one of the pages.
pub proof fn lemma_row_on_page(vl: Seq<Seq<char>>, lpp: nat, r: int)
    requires
        lpp > 0,
        0 <= r < vl.len(),
    ensures
        r / (lpp as int) < ceil_div(vl.len(), lpp),
        r % (lpp as int) < page_rows(vl, lpp, (r / (lpp as int)) as nat).len(),
        page_rows(vl, lpp, (r / (lpp as int)) as nat)[r % (lpp as int)] == vl[r],
{
    let n = vl.len();
    let d = lpp as int;
    let p = r / d;
    let m = r % d;
    vstd::arithmetic::div_mod::lemma_fundamental_div_mod(r, d);
    lemma_ceil_div(n, lpp);
    let total = ceil_div(n, lpp);
    assert(0 <= m < d);
    assert(p >= 0) by (nonlinear_arith)
        requires
            r >= 0,
            d > 0,
            p == r / d,
    ;
    assert(p < total) by (nonlinear_arith)
        requires
            r == d * p + m,
            m >= 0,
            r < n,
            total * d >= n,
            d > 0,
    ;
    let idx = if p < total - 1 {
        p
    } else {
        total - 1
    };
    assert(idx == p);
    let start = p * d;
    assert(start + m == r) by (nonlinear_arith)
        requires
            r == d * p + m,
            start == p * d,
    ;
}

} // verus!
