//! One line of the document: its bytes, and what is derived from them for the screen.
//!
//! A line is stored as raw bytes. On the screen a character takes one column, whatever the number
//! of bytes of its UTF-8 encoding, and a tab runs to the next tab stop. A row therefore keeps two
//! maps between byte indices and rendered columns, beside the rendered columns and their tags.

use crate::syntax::HlState;
use crate::syntax::HlType;
use crate::syntax::color_text;
use crate::syntax::push_color;
use crate::syntax::SyntaxConf;
use crate::text::push_text;
use vstd::string::StringSliceAdditionalSpecFns;
use vstd::prelude::*;

verus! {

/// Whether `b` is a continuation byte of a UTF-8 sequence.
pub open spec fn is_cont(b: u8) -> bool {
    0x80 <= b <= 0xbf
}

/// The number of bytes that the UTF-8 sequence led by `b` is meant to have. A byte that leads
/// nothing stands for itself.
pub open spec fn lead_width(b: u8) -> int {
    if b < 0xc0 {
        1
    } else if b < 0xe0 {
        2
    } else if b < 0xf0 {
        3
    } else if b < 0xf8 {
        4
    } else {
        1
    }
}

/// The number of continuation bytes that stand in `s` from index `j` on, counted up to `k`.
pub open spec fn cont_run(s: Seq<u8>, j: int, k: int) -> int
    decreases k,
{
    if k <= 0 || j < 0 || j >= s.len() || !is_cont(s[j]) {
        0
    } else {
        1 + cont_run(s, j + 1, k - 1)
    }
}

/// The number of bytes of the character that starts at index `i` of `s`: its first byte and the
/// continuation bytes that follow it, as many as the first byte announces at most.
pub open spec fn char_len(s: Seq<u8>, i: int) -> int {
    1 + cont_run(s, i + 1, lead_width(s[i]) - 1)
}

/// The number of columns that a character with first byte `b` takes when it is drawn from column
/// `rx` on: a tab runs to the next tab stop, every other character takes one column.
pub open spec fn col_width(b: u8, tab: int, rx: int) -> int {
    if b == 0x09 {
        tab - rx % tab
    } else {
        1
    }
}

/// The byte that stands in the columns of a character with first byte `b`: a space for a tab, a
/// printable stand-in for a control byte, and the byte itself otherwise.
pub open spec fn col_byte(b: u8) -> u8 {
    if b == 0x09 {
        0x20
    } else if b <= 26 {
        (b + 0x40) as u8
    } else if b < 0x20 || b == 0x7f {
        0x3f
    } else {
        b
    }
}

/// What is derived from the bytes of a line for the screen.
pub struct Layout {
    /// For each byte index, and for the end of the line, the column of its character.
    pub cx2rx: Seq<int>,
    /// For each column, the byte index of its character; for the end of the line, its length.
    pub rx2cx: Seq<int>,
    /// For each column, its byte.
    pub render: Seq<u8>,
}

/// The layout of the bytes of `s` from the character at index `cx` on, drawn from column `rx`
/// on with tab stops every `tab` columns.
pub open spec fn layout_from(s: Seq<u8>, tab: int, cx: int, rx: int) -> Layout
    decreases s.len() - cx,
{
    if cx < 0 || cx >= s.len() {
        Layout { cx2rx: seq![rx], rx2cx: seq![cx], render: Seq::empty() }
    } else {
        let n = char_len(s, cx);
        let w = col_width(s[cx], tab, rx);
        if n < 1 || cx + n > s.len() {
            Layout { cx2rx: seq![rx], rx2cx: seq![cx], render: Seq::empty() }
        } else {
            let rest = layout_from(s, tab, cx + n, rx + w);
            Layout {
                cx2rx: Seq::new(n as nat, |k: int| rx) + rest.cx2rx,
                rx2cx: Seq::new(w as nat, |k: int| cx) + rest.rx2cx,
                render: Seq::new(w as nat, |k: int| col_byte(s[cx])) + rest.render,
            }
        }
    }
}

/// The layout of the line `s` with tab stops every `tab` columns.
pub open spec fn layout_of(s: Seq<u8>, tab: int) -> Layout {
    layout_from(s, tab, 0, 0)
}

/// The numbers of `v`, as integers.
pub open spec fn ints(v: Seq<usize>) -> Seq<int> {
    v.map_values(|x: usize| x as int)
}

/// A run of continuation bytes is no longer than asked for, and ends inside the sequence.
pub proof fn lemma_cont_run_bounds(s: Seq<u8>, j: int, k: int)
    requires
        0 <= j <= s.len(),
        0 <= k,
    ensures
        0 <= cont_run(s, j, k) <= k,
        j + cont_run(s, j, k) <= s.len(),
    decreases k,
{
    if k > 0 && j < s.len() && is_cont(s[j]) {
        lemma_cont_run_bounds(s, j + 1, k - 1);
    }
}

/// A character has one to four bytes, all of them inside the sequence.
pub proof fn lemma_char_len_bounds(s: Seq<u8>, i: int)
    requires
        0 <= i < s.len(),
    ensures
        1 <= char_len(s, i) <= 4,
        i + char_len(s, i) <= s.len(),
{
    lemma_cont_run_bounds(s, i + 1, lead_width(s[i]) - 1);
}

/// A character takes at least one column, and a tab no more than the distance of the tab stops.
pub proof fn lemma_col_width_bounds(b: u8, tab: int, rx: int)
    requires
        tab > 0,
        rx >= 0,
    ensures
        1 <= col_width(b, tab, rx) <= tab,
{
    if b == 0x09 {
        assert(0 <= rx % tab < tab) by (nonlinear_arith)
            requires
                tab > 0,
                rx >= 0,
        ;
    }
}

/// The shape of a layout: one column index for each byte and one for the end of the line, one
/// byte index for each column and one for the end; the column indices never decrease, start at
/// `rx` and end at the width of the line; the byte indices stay inside the line.
pub proof fn lemma_layout_shape(s: Seq<u8>, tab: int, cx: int, rx: int)
    requires
        tab > 0,
        0 <= cx <= s.len(),
        0 <= rx,
    ensures
        ({
            let l = layout_from(s, tab, cx, rx);
            &&& l.cx2rx.len() == s.len() - cx + 1
            &&& l.rx2cx.len() == l.render.len() + 1
            &&& l.cx2rx[0] == rx
            &&& l.cx2rx[s.len() - cx] == rx + l.render.len()
            &&& l.rx2cx[l.render.len() as int] == s.len()
            &&& forall|i: int, j: int| 0 <= i <= j < l.cx2rx.len() ==> l.cx2rx[i] <= l.cx2rx[j]
            &&& forall|i: int| 0 <= i < l.cx2rx.len()
                ==> rx <= #[trigger] l.cx2rx[i] <= rx + l.render.len()
            &&& forall|k: int| 0 <= k < l.rx2cx.len() ==> cx <= #[trigger] l.rx2cx[k] <= s.len()
            &&& forall|k: int| 0 <= k < l.render.len() ==> #[trigger] l.rx2cx[k] < s.len()
        }),
    decreases s.len() - cx,
{
    if cx < s.len() {
        lemma_char_len_bounds(s, cx);
        lemma_col_width_bounds(s[cx], tab, rx);
        let n = char_len(s, cx);
        let w = col_width(s[cx], tab, rx);
        lemma_layout_shape(s, tab, cx + n, rx + w);
        let rest = layout_from(s, tab, cx + n, rx + w);
        let l = layout_from(s, tab, cx, rx);
        assert(l.cx2rx.len() == n + rest.cx2rx.len());
        assert(l.rx2cx.len() == w + rest.rx2cx.len());
        assert(l.render.len() == w + rest.render.len());
        assert forall|i: int| 0 <= i < l.cx2rx.len() implies rx <= #[trigger] l.cx2rx[i] <= rx
            + l.render.len() by {
            if i >= n {
                assert(l.cx2rx[i] == rest.cx2rx[i - n]);
            }
        }
        assert forall|i: int, j: int| 0 <= i <= j < l.cx2rx.len() implies l.cx2rx[i]
            <= l.cx2rx[j] by {
            if i >= n {
                assert(l.cx2rx[i] == rest.cx2rx[i - n]);
                assert(l.cx2rx[j] == rest.cx2rx[j - n]);
            } else if j >= n {
                assert(l.cx2rx[j] == rest.cx2rx[j - n]);
            }
        }
        assert forall|k: int| 0 <= k < l.rx2cx.len() implies cx <= #[trigger] l.rx2cx[k]
            <= s.len() by {
            if k >= w {
                assert(l.rx2cx[k] == rest.rx2cx[k - w]);
            }
        }
        assert forall|k: int| 0 <= k < l.render.len() implies #[trigger] l.rx2cx[k] < s.len() by {
            if k >= w {
                assert(l.rx2cx[k] == rest.rx2cx[k - w]);
            }
        }
        assert(l.cx2rx[s.len() - cx] == rest.cx2rx[s.len() - cx - n]);
        assert(l.rx2cx[l.render.len() as int] == rest.rx2cx[rest.render.len() as int]);
    }
}

/// The number of bytes of the character that starts at index `i` of `s`.
pub fn char_size_at(s: &[u8], i: usize) -> (n: usize)
    requires
        i < s@.len(),
    ensures
        n == char_len(s@, i as int),
        1 <= n <= 4,
        i + n <= s@.len(),
{
    proof {
        lemma_char_len_bounds(s@, i as int);
    }
    let b = s[i];
    let width: usize = if b < 0xc0 {
        1
    } else if b < 0xe0 {
        2
    } else if b < 0xf0 {
        3
    } else if b < 0xf8 {
        4
    } else {
        1
    };
    let len = s.len();
    let mut n: usize = 1;
    while n < width && n < len - i && 0x80 <= s[i + n] && s[i + n] <= 0xbf
        invariant
            1 <= n <= width <= 4,
            i < s@.len() == len,
            i + n <= len,
            width == lead_width(s@[i as int]),
            char_len(s@, i as int) == n + cont_run(s@, i + n, width - n),
        decreases width - n,
    {
        n = n + 1;
    }
    n
}

/// The byte that is drawn for a character with first byte `b`.
pub fn column_byte(b: u8) -> (r: u8)
    ensures
        r == col_byte(b),
{
    if b == 0x09 {
        0x20
    } else if b <= 26 {
        b + 0x40
    } else if b < 0x20 || b == 0x7f {
        0x3f
    } else {
        b
    }
}

/// One line of the document.
pub struct Row {
    /// The bytes of the line, without a line break.
    pub chars: Vec<u8>,
    /// For each byte index, and for the end of the line, the column of its character.
    pub cx2rx: Vec<usize>,
    /// For each column, the byte index of its character; for the end of the line, its length.
    pub rx2cx: Vec<usize>,
    /// The rendered columns, one byte each.
    pub render: Vec<u8>,
    /// The tag of each rendered column.
    pub hl: Vec<HlType>,
    /// The state of the scanner at the start of the line.
    pub hl_state_in: HlState,
    /// The state of the scanner at the end of the line.
    pub hl_state: HlState,
}

impl Row {
    /// Whether the columns of the row are those of its bytes, with tab stops every `tab`
    /// columns.
    pub open spec fn rendered(&self, tab: int) -> bool {
        let l = layout_of(self.chars@, tab);
        &&& ints(self.cx2rx@) == l.cx2rx
        &&& ints(self.rx2cx@) == l.rx2cx
        &&& self.render@ == l.render
    }

    /// Whether the tags of the row and the state at its end are those that `syntax` gives to its
    /// columns from the state at its start.
    pub open spec fn highlighted(&self, syntax: &SyntaxConf) -> bool {
        &&& self.hl@ == syntax.tags_of(self.hl_state_in, self.render@)
        &&& self.hl_state == syntax.state_after(self.hl_state_in, self.render@)
    }

    /// Whether all that the row derives from its bytes is up to date.
    pub open spec fn wf(&self, syntax: &SyntaxConf, tab: int) -> bool {
        self.rendered(tab) && self.highlighted(syntax)
    }

    /// The number of bytes of the character that is drawn in column `rx`; 1 where the column is
    /// the end of the line or lies behind it.
    pub open spec fn char_size(&self, rx: int) -> int {
        if 0 <= rx < self.rx2cx@.len() && self.rx2cx@[rx] < self.chars@.len() {
            char_len(self.chars@, self.rx2cx@[rx] as int)
        } else {
            1
        }
    }

    /// A row with the bytes `chars`. Nothing is derived from them yet: the row is in the normal
    /// state and has no columns.
    pub fn new(chars: Vec<u8>) -> (row: Row)
        ensures
            row.chars@ == chars@,
            row.cx2rx@ == seq![0usize],
            row.rx2cx@ == seq![0usize],
            row.render@.len() == 0,
            row.hl@.len() == 0,
            row.hl_state_in == HlState::Normal,
            row.hl_state == HlState::Normal,
    {
        let mut cx2rx: Vec<usize> = Vec::new();
        cx2rx.push(0);
        let mut rx2cx: Vec<usize> = Vec::new();
        rx2cx.push(0);
        Row {
            chars,
            cx2rx,
            rx2cx,
            render: Vec::new(),
            hl: Vec::new(),
            hl_state_in: HlState::Normal,
            hl_state: HlState::Normal,
        }
    }

    /// The number of bytes, from one to four, of the character that is drawn in column `rx`.
    pub fn get_char_size(&self, rx: usize) -> (n: usize)
        ensures
            n == self.char_size(rx as int),
            1 <= n <= 4,
    {
        if rx < self.rx2cx.len() {
            let cx = self.rx2cx[rx];
            if cx < self.chars.len() {
                return char_size_at(self.chars.as_slice(), cx);
            }
        }
        1
    }

    /// Derives the columns and the tags of the row anew from its bytes, for the rules `syntax`,
    /// the scanner state `hl_state` at the start of the line and tab stops every `tab` columns.
    /// Returns the state at the end of the line. The bytes stay as they are.
    pub fn update(&mut self, syntax: &SyntaxConf, hl_state: HlState, tab: usize) -> (out: HlState)
        requires
            tab > 0,
        ensures
            final(self).chars@ == old(self).chars@,
            final(self).hl_state_in == hl_state,
            final(self).wf(syntax, tab as int),
            out == final(self).hl_state,
            out == syntax.state_after(hl_state, layout_of(old(self).chars@, tab as int).render),
            final(self).cx2rx@.len() == old(self).chars@.len() + 1,
            forall|i: int, j: int|
                0 <= i <= j < final(self).cx2rx@.len()
                    ==> final(self).cx2rx@[i] <= final(self).cx2rx@[j],
    {
        let ghost s = self.chars@;
        let ghost full = layout_of(s, tab as int);
        let len = self.chars.len();
        let mut cx2rx: Vec<usize> = Vec::new();
        let mut rx2cx: Vec<usize> = Vec::new();
        let mut render: Vec<u8> = Vec::new();
        let mut cx: usize = 0;
        while cx < len
            invariant
                tab > 0,
                s == self.chars@,
                len == s.len(),
                full == layout_of(s, tab as int),
                0 <= cx <= len,
                cx2rx@.len() == cx,
                rx2cx@.len() == render@.len(),
                full.cx2rx == ints(cx2rx@)
                    + layout_from(s, tab as int, cx as int, render@.len() as int).cx2rx,
                full.rx2cx == ints(rx2cx@)
                    + layout_from(s, tab as int, cx as int, render@.len() as int).rx2cx,
                full.render == render@
                    + layout_from(s, tab as int, cx as int, render@.len() as int).render,
            decreases len - cx,
        {
            let rx = render.len();
            let b = self.chars[cx];
            let n = char_size_at(self.chars.as_slice(), cx);
            let w: usize = if b == 0x09 {
                tab - rx % tab
            } else {
                1
            };
            let r = column_byte(b);
            proof {
                lemma_col_width_bounds(b, tab as int, rx as int);
            }
            let ghost cx2rx0 = cx2rx@;
            let ghost rx2cx0 = rx2cx@;
            let ghost render0 = render@;
            let ghost rest = layout_from(s, tab as int, cx + n, rx + w);
            let mut k: usize = 0;
            while k < n
                invariant
                    0 <= k <= n,
                    cx2rx@ == cx2rx0 + Seq::new(k as nat, |j: int| rx),
                decreases n - k,
            {
                cx2rx.push(rx);
                k = k + 1;
                assert(cx2rx@ =~= cx2rx0 + Seq::new(k as nat, |j: int| rx));
            }
            let mut k: usize = 0;
            while k < w
                invariant
                    0 <= k <= w,
                    rx2cx@ == rx2cx0 + Seq::new(k as nat, |j: int| cx),
                    render@ == render0 + Seq::new(k as nat, |j: int| r),
                decreases w - k,
            {
                rx2cx.push(cx);
                render.push(r);
                k = k + 1;
                assert(rx2cx@ =~= rx2cx0 + Seq::new(k as nat, |j: int| cx));
                assert(render@ =~= render0 + Seq::new(k as nat, |j: int| r));
            }
            proof {
                let here = layout_from(s, tab as int, cx as int, rx as int);
                assert(here.cx2rx == Seq::new(n as nat, |j: int| rx as int) + rest.cx2rx);
                assert(here.rx2cx == Seq::new(w as nat, |j: int| cx as int) + rest.rx2cx);
                assert(here.render == Seq::new(w as nat, |j: int| r) + rest.render);
                assert(ints(cx2rx@) =~= ints(cx2rx0) + Seq::new(n as nat, |j: int| rx as int));
                assert(ints(rx2cx@) =~= ints(rx2cx0) + Seq::new(w as nat, |j: int| cx as int));
                assert(ints(cx2rx@) + rest.cx2rx =~= ints(cx2rx0) + here.cx2rx);
                assert(ints(rx2cx@) + rest.rx2cx =~= ints(rx2cx0) + here.rx2cx);
                assert(render@ + rest.render =~= render0 + here.render);
                assert(render@.len() == rx + w);
            }
            cx = cx + n;
        }
        let width = render.len();
        cx2rx.push(width);
        rx2cx.push(len);
        proof {
            let end = layout_from(s, tab as int, len as int, width as int);
            assert(end.cx2rx =~= seq![width as int]);
            assert(end.rx2cx =~= seq![len as int]);
            assert(ints(cx2rx@) =~= full.cx2rx);
            assert(ints(rx2cx@) =~= full.rx2cx);
            assert(render@ =~= full.render);
            lemma_layout_shape(s, tab as int, 0, 0);
            assert forall|i: int, j: int| 0 <= i <= j < cx2rx@.len() implies cx2rx@[i]
                <= cx2rx@[j] by {
                assert(ints(cx2rx@)[i] == cx2rx@[i] as int);
                assert(ints(cx2rx@)[j] == cx2rx@[j] as int);
            }
        }
        let (hl, out) = syntax.highlight(hl_state, render.as_slice());
        self.cx2rx = cx2rx;
        self.rx2cx = rx2cx;
        self.render = render;
        self.hl = hl;
        self.hl_state_in = hl_state;
        self.hl_state = out;
        out
    }
}

impl Row {
    /// The shape of a row whose columns are up to date: a column for each byte index and for
    /// the end of the line, never decreasing and inside the rendered line; a byte index for
    /// each column and for the end of the line, inside the line.
    pub proof fn lemma_shape(&self, tab: int)
        requires
            tab > 0,
            self.rendered(tab),
        ensures
            self.cx2rx@.len() == self.chars@.len() + 1,
            self.rx2cx@.len() == self.render@.len() + 1,
            self.cx2rx@[0] == 0,
            self.cx2rx@[self.chars@.len() as int] == self.render@.len(),
            self.rx2cx@[self.render@.len() as int] == self.chars@.len(),
            forall|i: int, j: int|
                0 <= i <= j < self.cx2rx@.len() ==> self.cx2rx@[i] <= self.cx2rx@[j],
            forall|i: int| 0 <= i < self.cx2rx@.len()
                ==> #[trigger] self.cx2rx@[i] <= self.render@.len(),
            forall|k: int| 0 <= k < self.rx2cx@.len()
                ==> #[trigger] self.rx2cx@[k] <= self.chars@.len(),
            forall|k: int| 0 <= k < self.render@.len()
                ==> #[trigger] self.rx2cx@[k] < self.chars@.len(),
    {
        let l = layout_of(self.chars@, tab);
        lemma_layout_shape(self.chars@, tab, 0, 0);
        assert(ints(self.cx2rx@).len() == self.cx2rx@.len());
        assert(ints(self.rx2cx@).len() == self.rx2cx@.len());
        assert forall|i: int| 0 <= i < self.cx2rx@.len() implies (#[trigger] self.cx2rx@[i])
            as int == l.cx2rx[i] by {
            assert(ints(self.cx2rx@)[i] == self.cx2rx@[i] as int);
        }
        assert forall|k: int| 0 <= k < self.rx2cx@.len() implies (#[trigger] self.rx2cx@[k])
            as int == l.rx2cx[k] by {
            assert(ints(self.rx2cx@)[k] == self.rx2cx@[k] as int);
        }
    }
}

impl Row {
    /// The number of bytes that lie between the byte index `x` and the start of the character
    /// that is drawn in the column before the column of `x`: the step from `x` back to the
    /// character before it. It is no more than `x`, and it is `x` where no column lies before.
    pub open spec fn size_before(&self, x: int) -> int {
        if 0 <= x < self.cx2rx@.len() && self.cx2rx@[x] > 0 {
            if self.char_size(self.cx2rx@[x] - 1) <= x {
                self.char_size(self.cx2rx@[x] - 1)
            } else {
                x
            }
        } else {
            x
        }
    }

    /// The number of bytes of the character that is drawn in the column of the byte index `x`.
    pub open spec fn size_at(&self, x: int) -> int {
        if 0 <= x < self.cx2rx@.len() {
            self.char_size(self.cx2rx@[x] as int)
        } else {
            1
        }
    }

    /// The number of bytes to step back from the byte index `x` to the character before it.
    pub fn step_back(&self, x: usize) -> (n: usize)
        ensures
            n == self.size_before(x as int),
            n <= x,
            x > 0 ==> n >= 1,
    {
        if x < self.cx2rx.len() {
            let rx = self.cx2rx[x];
            if rx > 0 {
                let size = self.get_char_size(rx - 1);
                return if size <= x {
                    size
                } else {
                    x
                };
            }
        }
        x
    }

    /// The number of bytes to step forward from the byte index `x` to the next character.
    pub fn step_forward(&self, x: usize) -> (n: usize)
        ensures
            n == self.size_at(x as int),
            1 <= n <= 4,
    {
        if x < self.cx2rx.len() {
            self.get_char_size(self.cx2rx[x])
        } else {
            1
        }
    }
}

/// The bytes that set a terminal back to its plain colours.
pub const RESET_FMT: &'static str = "\x1b[m";

/// The bytes that make a terminal swap the colours of text and background.
pub const REVERSE_VIDEO: &'static str = "\x1b[7m";

/// Whether `b` is a control byte that is no tab.
pub open spec fn is_control(b: u8) -> bool {
    (b < 0x20 && b != 0x09) || b == 0x7f
}

impl Row {
    /// Whether the tags and the maps of the row fit its columns: a tag for each column, and a
    /// byte index inside the line for each column.
    pub open spec fn shaped(&self) -> bool {
        &&& self.hl@.len() == self.render@.len()
        &&& self.rx2cx@.len() == self.render@.len() + 1
        &&& forall|k: int| 0 <= k < self.render@.len()
            ==> #[trigger] self.rx2cx@[k] < self.chars@.len()
    }

    /// A row that is up to date is shaped.
    pub proof fn lemma_shaped(&self, syntax: &SyntaxConf, tab: int)
        requires
            tab > 0,
            self.wf(syntax, tab),
        ensures
            self.shaped(),
    {
        self.lemma_shape(tab);
        syntax.lemma_scan_len(self.hl_state_in, self.render@, 0, false);
    }

    /// What is drawn in column `rx`: the bytes of its character, a space for a column of a
    /// tab, and a stand-in in swapped colours for a control byte.
    pub open spec fn cell(&self, rx: int) -> Seq<u8> {
        let cx = self.rx2cx@[rx] as int;
        let b = self.chars@[cx];
        if is_control(b) {
            REVERSE_VIDEO.spec_bytes() + seq![self.render@[rx]] + RESET_FMT.spec_bytes()
        } else if b >= 0x80 {
            self.chars@.subrange(cx, cx + char_len(self.chars@, cx))
        } else {
            seq![self.render@[rx]]
        }
    }

    /// What is drawn for the columns from `rx` up to, not including, `end`, on a terminal that
    /// is set to the colour of the tag `current`: the columns, each in the colour of its tag,
    /// and the bytes that set the terminal back at the end.
    pub open spec fn drawn(&self, rx: int, end: int, current: HlType) -> Seq<u8>
        decreases end - rx,
    {
        if rx >= end {
            RESET_FMT.spec_bytes()
        } else if is_control(self.chars@[self.rx2cx@[rx] as int]) {
            self.cell(rx) + (if current != HlType::Normal {
                color_text(current)
            } else {
                Seq::empty()
            }) + self.drawn(rx + 1, end, current)
        } else {
            (if current != self.hl@[rx] {
                color_text(self.hl@[rx])
            } else {
                Seq::empty()
            }) + self.cell(rx) + self.drawn(rx + 1, end, self.hl@[rx])
        }
    }

    /// What is drawn of the row in a window that shows `max_len` columns from column `offset`
    /// on.
    pub open spec fn drawn_in(&self, offset: int, max_len: int) -> Seq<u8> {
        let width = self.render@.len() as int;
        let start = if offset < width {
            offset
        } else {
            width
        };
        let end = if offset + max_len < width {
            offset + max_len
        } else {
            width
        };
        self.drawn(start, end, HlType::Normal)
    }

    /// Draws the row in a window that shows `max_len` columns from column `offset` on: puts
    /// the bytes for the terminal behind those of `buffer`.
    pub fn draw(&self, offset: usize, max_len: usize, buffer: &mut Vec<u8>)
        requires
            self.shaped(),
        ensures
            final(buffer)@ == old(buffer)@ + self.drawn_in(offset as int, max_len as int),
    {
        let width = self.render.len();
        let start = if offset < width {
            offset
        } else {
            width
        };
        let end = if max_len < width - start {
            start + max_len
        } else {
            width
        };
        let mut current = HlType::Normal;
        let mut rx: usize = start;
        while rx < end
            invariant
                self.shaped(),
                width == self.render@.len(),
                start <= rx <= end <= width,
                old(buffer)@ + self.drawn(start as int, end as int, HlType::Normal) == buffer@
                    + self.drawn(rx as int, end as int, current),
            decreases end - rx,
        {
            let ghost before = buffer@;
            let cx = self.rx2cx[rx];
            let b = self.chars[cx];
            if (b < 0x20 && b != 0x09) || b == 0x7f {
                push_text(buffer, REVERSE_VIDEO);
                buffer.push(self.render[rx]);
                push_text(buffer, RESET_FMT);
                if current != HlType::Normal {
                    push_color(buffer, current);
                }
                proof {
                    assert(buffer@ =~= before + (self.cell(rx as int) + (if current
                        != HlType::Normal {
                        color_text(current)
                    } else {
                        Seq::empty()
                    })));
                    assert(before + self.drawn(rx as int, end as int, current) =~= buffer@
                        + self.drawn(rx + 1, end as int, current));
                }
            } else {
                let hl = self.hl[rx];
                if current != hl {
                    push_color(buffer, hl);
                }
                if b >= 0x80 {
                    let n = char_size_at(self.chars.as_slice(), cx);
                    let len = self.chars.len();
                    let mut k: usize = 0;
                    let ghost head = buffer@;
                    while k < n
                        invariant
                            0 <= k <= n,
                            cx + n <= self.chars@.len() == len,
                            buffer@ == head + self.chars@.subrange(cx as int, cx + k),
                        decreases n - k,
                    {
                        buffer.push(self.chars[cx + k]);
                        k = k + 1;
                        assert(buffer@ =~= head + self.chars@.subrange(cx as int, cx + k));
                    }
                } else {
                    buffer.push(self.render[rx]);
                }
                proof {
                    assert(buffer@ =~= before + ((if current != hl {
                        color_text(hl)
                    } else {
                        Seq::empty()
                    }) + self.cell(rx as int)));
                    assert(before + self.drawn(rx as int, end as int, current) =~= buffer@
                        + self.drawn(rx + 1, end as int, hl));
                }
                current = hl;
            }
            rx = rx + 1;
        }
        push_text(buffer, RESET_FMT);
    }
}

} // verus!
