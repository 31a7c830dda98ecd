//! The help screen: its pages of rows and the rules that turn each row
//! into styled text (headers in the accent color and bold, keys in a
//! padded yellow column, `g:`/`y:`/`r:`/`a:` segments in their color).
use vstd::prelude::*;

use crate::text::{
    chars_of, find_char, has_prefix, len_before, slice_chars, spec_trim, starts_with, string_of,
    trim_chars,
};

verus! {

/// The language the help text is shown in.
#[derive(Clone, Copy, PartialEq, Eq, Debug, Structural)]
pub enum Lang {
    Pt,
    En,
}

/// What a help row is.
#[derive(Clone, Copy, PartialEq, Eq, Debug, Structural)]
pub enum RowKind {
    /// A section header.
    Hdr,
    /// A key and what it does.
    Key,
    /// Plain text.
    Txt,
    /// `|`-separated segments, each colored by its `g:`/`y:`/`r:`/`a:` prefix.
    Colors,
}

/// One row of help content.
///
/// `key` is the yellow key column (empty for non-key rows); `text` is the
/// description.
pub struct HelpRow<'a> {
    pub kind: RowKind,
    pub key: &'a str,
    pub text: &'a str,
}

impl<'a> View for HelpRow<'a> {
    type V = (RowKind, Seq<char>, Seq<char>);

    open spec fn view(&self) -> (RowKind, Seq<char>, Seq<char>) {
        (self.kind, self.key@, self.text@)
    }
}

/// The theme color a piece of help text is drawn in.
#[derive(Clone, Copy, PartialEq, Eq, Debug, Structural)]
pub enum Tone {
    Accent,
    Yellow,
    Green,
    Red,
    Fg,
    /// No style of its own (the spacing between colored segments).
    Plain,
}

/// A piece of help text with its color and weight.
#[derive(Debug)]
pub struct StyledSpan {
    pub text: String,
    pub tone: Tone,
    pub bold: bool,
}

impl View for StyledSpan {
    type V = (Seq<char>, Tone, bool);

    open spec fn view(&self) -> (Seq<char>, Tone, bool) {
        (self.text@, self.tone, self.bold)
    }
}

/// A rendered help line.
pub type HelpLine = Vec<StyledSpan>;

pub type SpanView = (Seq<char>, Tone, bool);

pub open spec fn span_views(l: Seq<StyledSpan>) -> Seq<SpanView> {
    l.map_values(|s: StyledSpan| s@)
}

pub open spec fn line_views(ls: Seq<HelpLine>) -> Seq<Seq<SpanView>> {
    ls.map_values(|l: HelpLine| span_views(l@))
}

pub open spec fn row_views(rs: Seq<HelpRow>) -> Seq<(RowKind, Seq<char>, Seq<char>)> {
    rs.map_values(|r: HelpRow| r@)
}

// ---------------------------------------------------------------------
// Colored segments
// ---------------------------------------------------------------------

/// The pieces of `s` between the separators `c` (`str::split`): one more
/// piece than there are separators.
pub open spec fn spec_split(s: Seq<char>, c: char) -> Seq<Seq<char>>
    decreases s.len(),
{
    if len_before(s, c) < s.len() {
        seq![s.take(len_before(s, c) as int)] + spec_split(s.skip(len_before(s, c) + 1int), c)
    } else {
        seq![s]
    }
}

/// A trimmed segment's color and text: a `g:`, `y:`, `r:` or `a:` prefix
/// picks green, yellow, red or accent and is dropped; other text is
/// drawn in the foreground color.
pub open spec fn segment_span(part: Seq<char>) -> SpanView {
    let p = spec_trim(part);
    if has_prefix(p, "g:"@) {
        (p.skip(2), Tone::Green, false)
    } else if has_prefix(p, "y:"@) {
        (p.skip(2), Tone::Yellow, false)
    } else if has_prefix(p, "r:"@) {
        (p.skip(2), Tone::Red, false)
    } else if has_prefix(p, "a:"@) {
        (p.skip(2), Tone::Accent, false)
    } else {
        (p, Tone::Fg, false)
    }
}

/// The spacing after each segment.
pub open spec fn spacer() -> SpanView {
    ("   "@, Tone::Plain, false)
}

/// Each segment's span followed by the spacing.
pub open spec fn segment_spans(parts: Seq<Seq<char>>) -> Seq<SpanView>
    decreases parts.len(),
{
    if parts.len() == 0 {
        seq![]
    } else {
        segment_spans(parts.drop_last()) + seq![segment_span(parts.last()), spacer()]
    }
}

/// The spans of a `Colors` row.
pub open spec fn spec_colorized(s: Seq<char>) -> Seq<SpanView> {
    segment_spans(spec_split(s, '|'))
}

fn segment(part: &Vec<char>) -> (r: StyledSpan)
    ensures
        r@ == segment_span(part@),
{
    let p = trim_chars(part);
    let g = chars_of("g:");
    let y = chars_of("y:");
    let rd = chars_of("r:");
    let a = chars_of("a:");
    proof {
        reveal_strlit("g:");
        reveal_strlit("y:");
        reveal_strlit("r:");
        reveal_strlit("a:");
    }
    let tone = if starts_with(&p, &g) {
        Tone::Green
    } else if starts_with(&p, &y) {
        Tone::Yellow
    } else if starts_with(&p, &rd) {
        Tone::Red
    } else if starts_with(&p, &a) {
        Tone::Accent
    } else {
        Tone::Fg
    };
    let text = if tone == Tone::Fg {
        string_of(p.as_slice())
    } else {
        let rest = slice_chars(&p, 2, p.len());
        assert(rest@ =~= p@.skip(2));
        string_of(rest.as_slice())
    };
    StyledSpan { text, tone, bold: false }
}

fn spacer_span() -> (r: StyledSpan)
    ensures
        r@ == spacer(),
{
    StyledSpan { text: String::from_str("   "), tone: Tone::Plain, bold: false }
}

/// The spans of a `Colors` row: each `|`-separated segment, trimmed and
/// colored by its prefix, then three spaces.
pub fn colorized(s: &str) -> (r: HelpLine)
    ensures
        span_views(r@) == spec_colorized(s@),
{
    let chars = chars_of(s);
    let mut out: HelpLine = Vec::new();
    let mut start: usize = 0;
    let ghost mut parts: Seq<Seq<char>> = seq![];
    assert(chars@.skip(0) =~= chars@);
    loop
        invariant
            start <= chars.len(),
            parts + spec_split(chars@.skip(start as int), '|') == spec_split(s@, '|'),
            span_views(out@) == segment_spans(parts),
            chars@ == s@,
        decreases chars.len() - start,
    {
        let rest = slice_chars(&chars, start, chars.len());
        assert(rest@ =~= chars@.skip(start as int));
        match find_char(&rest, '|') {
            Some(k) => {
                let part = slice_chars(&rest, 0, k);
                assert(part@ =~= rest@.take(k as int));
                assert(rest@.skip(k + 1) =~= chars@.skip(start + k + 1));
                let ghost before = out@;
                out.push(segment(&part));
                out.push(spacer_span());
                proof {
                    assert(spec_split(rest@, '|') == seq![part@] + spec_split(rest@.skip(k + 1), '|'));
                    assert(segment_spans(parts.push(part@)) == segment_spans(parts) + seq![segment_span(part@), spacer()]) by {
                        assert(parts.push(part@).drop_last() =~= parts);
                    }
                    assert(span_views(out@) =~= span_views(before) + seq![segment_span(part@), spacer()]);
                    assert(parts.push(part@) + spec_split(chars@.skip(start + k + 1), '|') =~= parts + spec_split(rest@, '|'));
                    parts = parts.push(part@);
                }
                start = start + k + 1;
            },
            None => {
                let ghost before = out@;
                out.push(segment(&rest));
                out.push(spacer_span());
                proof {
                    assert(spec_split(rest@, '|') == seq![rest@]);
                    assert(segment_spans(parts.push(rest@)) == segment_spans(parts) + seq![segment_span(rest@), spacer()]) by {
                        assert(parts.push(rest@).drop_last() =~= parts);
                    }
                    assert(span_views(out@) =~= span_views(before) + seq![segment_span(rest@), spacer()]);
                    assert(parts.push(rest@) =~= parts + spec_split(rest@, '|'));
                }
                return out;
            },
        }
    }
}

// ---------------------------------------------------------------------
// Rows to lines
// ---------------------------------------------------------------------

/// `n` spaces.
pub open spec fn spaces(n: nat) -> Seq<char> {
    Seq::new(n, |i: int| ' ')
}

/// The key column: two spaces, then the key left-aligned in twelve
/// characters (a longer key is kept whole).
pub open spec fn key_cell(key: Seq<char>) -> Seq<char> {
    "  "@ + key + spaces(if key.len() < 12 {
        (12 - key.len()) as nat
    } else {
        0
    })
}

/// The spans of one help row.
pub open spec fn spec_row_line(row: (RowKind, Seq<char>, Seq<char>)) -> Seq<SpanView> {
    match row.0 {
        RowKind::Hdr => seq![("  "@ + row.2, Tone::Accent, true)],
        RowKind::Key => seq![(key_cell(row.1), Tone::Yellow, false), (row.2, Tone::Fg, false)],
        RowKind::Txt => seq![(row.2, Tone::Fg, false)],
        RowKind::Colors => spec_colorized(row.2),
    }
}

fn key_column(key: &str) -> (r: String)
    ensures
        r@ == key_cell(key@),
{
    let mut s = String::from_str("  ");
    s.append(key);
    let n = key.unicode_len();
    let mut i: usize = n;
    while i < 12
        invariant
            n == key@.len(),
            n <= i <= 12 || (n > 12 && i == n),
            s@ == "  "@ + key@ + spaces((i - n) as nat),
        decreases 12 - i,
    {
        s.push(' ');
        i = i + 1;
        assert(s@ =~= "  "@ + key@ + spaces((i - n) as nat));
    }
    assert(s@ =~= key_cell(key@));
    s
}

/// The spans of one help row: headers in accent and bold after two
/// spaces, keys padded in yellow beside their text, plain text in the
/// foreground color, and colored rows split into their segments.
pub fn row_line(row: &HelpRow) -> (r: HelpLine)
    ensures
        span_views(r@) == spec_row_line(row@),
{
    match row.kind {
        RowKind::Hdr => {
            let mut t = String::from_str("  ");
            t.append(row.text);
            let r = vec![StyledSpan { text: t, tone: Tone::Accent, bold: true }];
            assert(span_views(r@) =~= spec_row_line(row@));
            r
        },
        RowKind::Key => {
            let k = key_column(row.key);
            let r = vec![
                StyledSpan { text: k, tone: Tone::Yellow, bold: false },
                StyledSpan { text: String::from_str(row.text), tone: Tone::Fg, bold: false },
            ];
            assert(span_views(r@) =~= spec_row_line(row@));
            r
        },
        RowKind::Txt => {
            let r = vec![StyledSpan { text: String::from_str(row.text), tone: Tone::Fg, bold: false }];
            assert(span_views(r@) =~= spec_row_line(row@));
            r
        },
        RowKind::Colors => colorized(row.text),
    }
}

/// One line per row, in order.
pub fn help_lines(rows: &[HelpRow]) -> (r: Vec<HelpLine>)
    ensures
        line_views(r@) == row_views(rows@).map_values(|row| spec_row_line(row)),
{
    let mut out: Vec<HelpLine> = Vec::new();
    let mut i: usize = 0;
    while i < rows.len()
        invariant
            i <= rows.len(),
            line_views(out@) == row_views(rows@).take(i as int).map_values(|row| spec_row_line(row)),
        decreases rows.len() - i,
    {
        let ghost before = out@;
        let l = row_line(&rows[i]);
        assert(row_views(rows@)[i as int] == rows@[i as int]@);
        out.push(l);
        assert(line_views(out@) =~= line_views(before).push(span_views(l@)));
        assert(row_views(rows@).take(i + 1).map_values(|row| spec_row_line(row)) =~= row_views(
            rows@,
        ).take(i as int).map_values(|row| spec_row_line(row)).push(spec_row_line(row_views(rows@)[i as int])));
        i = i + 1;
    }
    assert(row_views(rows@).take(i as int) =~= row_views(rows@));
    out
}

pub fn hdr(text: &'static str) -> (r: HelpRow<'static>)
    ensures
        r@ == (RowKind::Hdr, ""@, text@),
{
    HelpRow { kind: RowKind::Hdr, key: "", text }
}

pub fn key(k: &'static str, text: &'static str) -> (r: HelpRow<'static>)
    ensures
        r@ == (RowKind::Key, k@, text@),
{
    HelpRow { kind: RowKind::Key, key: k, text }
}

pub fn txt(text: &'static str) -> (r: HelpRow<'static>)
    ensures
        r@ == (RowKind::Txt, ""@, text@),
{
    HelpRow { kind: RowKind::Txt, key: "", text }
}

pub fn cols(text: &'static str) -> (r: HelpRow<'static>)
    ensures
        r@ == (RowKind::Colors, ""@, text@),
{
    HelpRow { kind: RowKind::Colors, key: "", text }
}

// ---------------------------------------------------------------------
// The pages
// ---------------------------------------------------------------------

/// Number of help pages.
pub const HELP_PAGES: usize = 5;

/// The title of help page `page` (counted from 0).
pub open spec fn page_title(lang: Lang, page: nat) -> Seq<char> {
    if lang == Lang::Pt && page == 0 {
        "help 1/5 — teclas"@
    } else if lang == Lang::En && page == 0 {
        "help 1/5 — keys"@
    } else if lang == Lang::Pt && page == 1 {
        "help 2/5 — bloco CPU"@
    } else if lang == Lang::En && page == 1 {
        "help 2/5 — CPU block"@
    } else if lang == Lang::Pt && page == 2 {
        "help 3/5 — memoria e discos"@
    } else if lang == Lang::En && page == 2 {
        "help 3/5 — memory and disks"@
    } else if lang == Lang::Pt && page == 3 {
        "help 4/5 — processos e trace"@
    } else if lang == Lang::En && page == 3 {
        "help 4/5 — processes and trace"@
    } else if lang == Lang::Pt && page == 4 {
        "help 5/5 — IO: o que cada stat significa"@
    } else if lang == Lang::En && page == 4 {
        "help 5/5 — IO: what each stat means"@
    } else {
        seq![]
    }
}

/// The rows of help page `page` (counted from 0): `(kind, key, text)`.
pub open spec fn page_rows(lang: Lang, page: nat) -> Seq<(RowKind, Seq<char>, Seq<char>)> {
    if lang == Lang::Pt && page == 0 {
        seq![
            (RowKind::Hdr, ""@, "PAINEIS — Tab alterna"@),
            (RowKind::Key, "Tab"@, "alterna: Processos → CPU → IO → NET"@),
            (RowKind::Key, "1-4"@, "focam o painel (1 CPU · 2 IO · 3 NET · 4 PROC);"@),
            (RowKind::Key, ""@, "repetir o numero do painel em foco volta ao anterior"@),
            (RowKind::Key, "← →"@, "no painel CPU: move o nucleo focado"@),
            (RowKind::Key, "Enter"@, "filtra os processos do nucleo focado (Esc volta)"@),
            (RowKind::Key, "↑ ↓"@, "selecionam processo; PgUp/PgDn/Home/End pulam"@),
            (RowKind::Txt, ""@, ""@),
            (RowKind::Hdr, ""@, "ACOES"@),
            (RowKind::Key, "q"@, "sair · z pausa · s trace de syscalls"@),
            (RowKind::Key, "k"@, "kill: 1=SIGTERM, 9=SIGKILL, 0=cancela (prompt)"@),
            (RowKind::Key, "p/m"@, "ordena por CPU/MEM · i inverte a ordem"@),
            (RowKind::Key, "c"@, "comando completo · t arvore · H threads · K kernel"@),
            (RowKind::Key, "/"@, "busca · C tema de cor · L idioma PT/EN"@),
            (RowKind::Txt, ""@, ""@),
            (RowKind::Hdr, ""@, "HELP"@),
            (RowKind::Key, "n/p"@, "proxima/anterior pagina (ou PgUp/PgDn)"@),
            (RowKind::Key, "?/q"@, "fecha o help"@),
        ]
    } else if lang == Lang::En && page == 0 {
        seq![
            (RowKind::Hdr, ""@, "PAGES — Tab cycles"@),
            (RowKind::Key, "Tab"@, "cycles: Cpu → IO → NET"@),
            (RowKind::Key, "1-4"@, "focus a pane (1 CPU · 2 IO · 3 NET · 4 PROC);"@),
            (RowKind::Key, ""@, "repeat the focused pane's number to return to previous"@),
            (RowKind::Key, "← →"@, "CPU pane: move the focused core"@),
            (RowKind::Key, "Enter"@, "filter processes of the focused core (Esc clears)"@),
            (RowKind::Key, "↑ ↓"@, "select a process; PgUp/PgDn/Home/End jump"@),
            (RowKind::Txt, ""@, ""@),
            (RowKind::Hdr, ""@, "ACTIONS"@),
            (RowKind::Key, "q"@, "quit · z pause · s syscall trace"@),
            (RowKind::Key, "k"@, "kill: 1=SIGTERM, 9=SIGKILL, 0=cancel (prompt)"@),
            (RowKind::Key, "p/m"@, "sort by CPU/MEM · i invert order"@),
            (RowKind::Key, "c"@, "full command · t tree · H threads · K kernel"@),
            (RowKind::Key, "/"@, "search · C color theme · L language PT/EN"@),
            (RowKind::Txt, ""@, ""@),
            (RowKind::Hdr, ""@, "HELP"@),
            (RowKind::Key, "n/p"@, "next/previous page (or PgUp/PgDn)"@),
            (RowKind::Key, "?/q"@, "close help"@),
        ]
    } else if lang == Lang::Pt && page == 1 {
        seq![
            (RowKind::Hdr, ""@, "VISAO GERAL"@),
            (RowKind::Key, "overall"@, "uso total da CPU (barra + %)"@),
            (RowKind::Key, "load a b c"@, "load average 1/5/15 min"@),
            (RowKind::Key, "iowait"@, "% do tempo ocioso esperando I/O (gargalo de disco)"@),
            (RowKind::Txt, ""@, ""@),
            (RowKind::Hdr, ""@, "TIPOS DE NUCLEO"@),
            (RowKind::Colors, ""@, "g:P  Performance: L2 privado, o mais rapido | y:E  Efficient: compartilha L2 num cluster | r:L  Low-power: clock baixo, economiza bateria"@),
            (RowKind::Txt, ""@, ""@),
            (RowKind::Hdr, ""@, "CORES E VALORES"@),
            (RowKind::Colors, ""@, "GHz vs limite do nucleo: g:verde <33% | y:amarelo 33-66% | r:vermelho >66%"@),
            (RowKind::Colors, ""@, "°C cor = tipo do nucleo (P/E/L) | barra: g:verde <50% | y:amarelo 50-80% | r:vermelho >80%"@),
        ]
    } else if lang == Lang::En && page == 1 {
        seq![
            (RowKind::Hdr, ""@, "OVERVIEW"@),
            (RowKind::Key, "overall"@, "total CPU usage (bar + %)"@),
            (RowKind::Key, "load a b c"@, "load average 1/5/15 min"@),
            (RowKind::Key, "iowait"@, "% of idle time waiting on I/O (disk bottleneck)"@),
            (RowKind::Txt, ""@, ""@),
            (RowKind::Hdr, ""@, "CORE TYPES"@),
            (RowKind::Colors, ""@, "g:P  Performance: private L2, fastest | y:E  Efficient: shares L2 in a cluster | r:L  Low-power: low clock, saves battery"@),
            (RowKind::Txt, ""@, ""@),
            (RowKind::Hdr, ""@, "COLORS AND VALUES"@),
            (RowKind::Colors, ""@, "GHz vs core limit: g:green <33% | y:yellow 33-66% | r:red >66%"@),
            (RowKind::Colors, ""@, "°C colored by core type (P/E/L) | bar: g:green <50% | y:yellow 50-80% | r:red >80%"@),
        ]
    } else if lang == Lang::Pt && page == 2 {
        seq![
            (RowKind::Hdr, ""@, "MEM — barra empilhada"@),
            (RowKind::Colors, ""@, "g:verde = usado por apps (nao liberavel) | y:amarelo = cache (liberavel) | a:azul = buffers de I/O | cinza = livre"@),
            (RowKind::Txt, ""@, "sem RAM, o kernel descarta o amarelo primeiro; o verde"@),
            (RowKind::Txt, ""@, "so cai fechando apps — a soma de tudo = total"@),
            (RowKind::Key, "swap"@, "uso com barra e %"@),
            (RowKind::Key, "psi"@, "pressao de memoria (10s/60s/300s): estresse ANTES de travar"@),
            (RowKind::Colors, ""@, "g:<5% ok | y:5-10% atencao | r:>10% estresse"@),
            (RowKind::Txt, ""@, ""@),
            (RowKind::Hdr, ""@, "DISKS"@),
            (RowKind::Txt, ""@, "linha: nome | barra | % | usado/total | mount"@),
            (RowKind::Colors, ""@, "barra: g:<70% ok | y:70-85% | r:>85%"@),
            (RowKind::Txt, ""@, "subvolumes btrfs do mesmo disco agrupados num nome so"@),
            (RowKind::Txt, ""@, ""@),
            (RowKind::Hdr, ""@, "PAINEL IO (Tab)"@),
            (RowKind::Txt, ""@, "taxas read/write desde o ultimo refresh; barras escalam"@),
            (RowKind::Txt, ""@, "pelo disco mais rapido — leitura azul, escrita amarelo"@),
            (RowKind::Txt, ""@, "pagina 5 explica cada stat e os bons valores"@),
        ]
    } else if lang == Lang::En && page == 2 {
        seq![
            (RowKind::Hdr, ""@, "MEM — stacked bar"@),
            (RowKind::Colors, ""@, "g:green = used by apps (not reclaimable) | y:yellow = cache (reclaimable) | a:blue = I/O buffers | gray = free"@),
            (RowKind::Txt, ""@, "out of RAM the kernel drops the yellow first; green"@),
            (RowKind::Txt, ""@, "only drops when apps close — segments sum to total"@),
            (RowKind::Key, "swap"@, "usage with bar and %"@),
            (RowKind::Key, "psi"@, "memory pressure (10s/60s/300s): stress BEFORE the freeze"@),
            (RowKind::Colors, ""@, "g:<5% fine | y:5-10% watch | r:>10% stressed"@),
            (RowKind::Txt, ""@, ""@),
            (RowKind::Hdr, ""@, "DISKS"@),
            (RowKind::Txt, ""@, "row: name | bar | % | used/total | mount"@),
            (RowKind::Colors, ""@, "bar: g:<70% fine | y:70-85% | r:>85%"@),
            (RowKind::Txt, ""@, "btrfs subvolumes of the same disk grouped under one name"@),
            (RowKind::Txt, ""@, ""@),
            (RowKind::Hdr, ""@, "IO PANE (Tab)"@),
            (RowKind::Txt, ""@, "read/write rates since last refresh; bars scale to"@),
            (RowKind::Txt, ""@, "the fastest disk — read blue, write yellow"@),
            (RowKind::Txt, ""@, "page 5 explains every stat and good values"@),
        ]
    } else if lang == Lang::Pt && page == 3 {
        seq![
            (RowKind::Hdr, ""@, "TABELA DE PROCESSOS"@),
            (RowKind::Txt, ""@, "colunas: PID | USER | CPU% | MEM | COMMAND; seta = ordenada"@),
            (RowKind::Txt, ""@, "CPU% e por nucleo (100% = 1 nucleo inteiro), como o htop"@),
            (RowKind::Key, "Enter"@, "num nucleo = filtra os processos daquele nucleo"@),
            (RowKind::Key, "H"@, "mostra threads · K mostra threads do kernel"@),
            (RowKind::Txt, ""@, ""@),
            (RowKind::Hdr, ""@, "TRACE (tecla s)"@),
            (RowKind::Txt, ""@, "syscalls do processo selecionado ao vivo; s/q para parar"@),
            (RowKind::Txt, ""@, "(detach — o processo continua rodando)"@),
            (RowKind::Txt, ""@, "so funciona em filhos (yama ptrace_scope=1):"@),
            (RowKind::Txt, ""@, "  perfo trace -- <comando>   → spawna e traca"@),
            (RowKind::Txt, ""@, "  sudo sysctl kernel.yama.ptrace_scope=0  → libera todos"@),
            (RowKind::Txt, ""@, ""@),
            (RowKind::Hdr, ""@, "FORA DO TUI"@),
            (RowKind::Txt, ""@, "perfo cpu --json  → dados pro widget do Omarchy"@),
            (RowKind::Txt, ""@, "perfo bench       → perfil de refresh (flamegraph)"@),
        ]
    } else if lang == Lang::En && page == 3 {
        seq![
            (RowKind::Hdr, ""@, "PROCESS TABLE"@),
            (RowKind::Txt, ""@, "columns: PID | USER | CPU% | MEM | COMMAND; arrow = sorted"@),
            (RowKind::Txt, ""@, "CPU% is per core (100% = one full core), like htop"@),
            (RowKind::Key, "Enter"@, "on a core = filter processes of that core"@),
            (RowKind::Key, "H"@, "show threads · K show kernel threads"@),
            (RowKind::Txt, ""@, ""@),
            (RowKind::Hdr, ""@, "TRACE (key s)"@),
            (RowKind::Txt, ""@, "live syscalls of the selected process; s/q stops"@),
            (RowKind::Txt, ""@, "(detach — the process keeps running)"@),
            (RowKind::Txt, ""@, "only works on children (yama ptrace_scope=1):"@),
            (RowKind::Txt, ""@, "  perfo trace -- <command>   → spawns and traces"@),
            (RowKind::Txt, ""@, "  sudo sysctl kernel.yama.ptrace_scope=0  → allows all"@),
            (RowKind::Txt, ""@, ""@),
            (RowKind::Hdr, ""@, "OUTSIDE THE TUI"@),
            (RowKind::Txt, ""@, "perfo cpu --json  → data for the Omarchy widget"@),
            (RowKind::Txt, ""@, "perfo bench       → refresh profiling (flamegraph)"@),
        ]
    } else if lang == Lang::Pt && page == 4 {
        seq![
            (RowKind::Hdr, ""@, "IOPS"@),
            (RowKind::Key, "r/s w/s"@, "operacoes de leitura/escrita por segundo"@),
            (RowKind::Txt, ""@, "milhares num NVMe; IOPS alto + taxa baixa = I/O aleatorio"@),
            (RowKind::Txt, ""@, ""@),
            (RowKind::Hdr, ""@, "LATENCIA — o numero que importa"@),
            (RowKind::Key, "r_awt/w_awt"@, "tempo medio da op em ms, fila incluida"@),
            (RowKind::Colors, ""@, "g:<2ms saudavel | y:2-10ms ok | r:>=10ms saturado — NVMe bom fica <1ms"@),
            (RowKind::Txt, ""@, ""@),
            (RowKind::Hdr, ""@, "FILA E BUSY"@),
            (RowKind::Key, "fila"@, "requisicoes em voo (aqu-sz)"@),
            (RowKind::Colors, ""@, "g:<2 | y:2-8 | r:>=8 — HDD: >1 ja enfileira"@),
            (RowKind::Key, "busy"@, "% do tempo com alguma op em voo. CUIDADO: em NVMe"@),
            (RowKind::Txt, ""@, "100% NAO e saturacao (16 filas paralelas);"@),
            (RowKind::Txt, ""@, "confie em r_awt/w_awt + fila, nao em busy"@),
            (RowKind::Txt, ""@, ""@),
            (RowKind::Hdr, ""@, "MERGE E REQUEST SIZE (JSON)"@),
            (RowKind::Key, "merge_pct"@, "% de requests juntados pelo kernel — alto = sequencial"@),
            (RowKind::Colors, ""@, "req_kib: g:>=128KiB sequencial | y:4-16KiB randomico"@),
            (RowKind::Txt, ""@, ""@),
            (RowKind::Hdr, ""@, "PRESSAO E IOWAIT"@),
            (RowKind::Key, "io pressure"@, "psi: % do tempo com I/O travando a maquina"@),
            (RowKind::Colors, ""@, "g:<5 ok | y:5-10 atencao | r:>10 estresse"@),
            (RowKind::Key, "iowait"@, "% ocioso esperando I/O (linha do CPU)"@),
            (RowKind::Txt, ""@, ">15-20% sustentado + await alto = gargalo de disco;"@),
            (RowKind::Txt, ""@, "iowait alto + await normal = paging (falta RAM)"@),
            (RowKind::Txt, ""@, ""@),
            (RowKind::Hdr, ""@, "I/O POR PROCESSO"@),
            (RowKind::Txt, ""@, "read_bytes/write_bytes = bytes REAIS no storage (nao rchar/"@),
            (RowKind::Txt, ""@, "wchar que incluem cache); so teus processos (yama),"@),
            (RowKind::Txt, ""@, "root ve todos"@),
        ]
    } else if lang == Lang::En && page == 4 {
        seq![
            (RowKind::Hdr, ""@, "IOPS"@),
            (RowKind::Key, "r/s w/s"@, "read/write operations per second"@),
            (RowKind::Txt, ""@, "thousands on NVMe; high IOPS + low throughput = random I/O"@),
            (RowKind::Txt, ""@, ""@),
            (RowKind::Hdr, ""@, "LATENCY — the number that matters"@),
            (RowKind::Key, "r_awt/w_awt"@, "average op time in ms, queue included"@),
            (RowKind::Colors, ""@, "g:<2ms healthy | y:2-10ms ok | r:>=10ms saturated — healthy NVMe stays <1ms"@),
            (RowKind::Txt, ""@, ""@),
            (RowKind::Hdr, ""@, "QUEUE AND BUSY"@),
            (RowKind::Key, "fila"@, "in-flight requests (aqu-sz)"@),
            (RowKind::Colors, ""@, "g:<2 | y:2-8 | r:>=8 — HDD: >1 already queues"@),
            (RowKind::Key, "busy"@, "% of time with an op in flight. CAUTION: on NVMe"@),
            (RowKind::Txt, ""@, "100% is NOT saturation (16 parallel queues);"@),
            (RowKind::Txt, ""@, "trust r_awt/w_awt + fila, not busy"@),
            (RowKind::Txt, ""@, ""@),
            (RowKind::Hdr, ""@, "MERGE AND REQUEST SIZE (JSON)"@),
            (RowKind::Key, "merge_pct"@, "% of requests merged by the kernel — high = sequential"@),
            (RowKind::Colors, ""@, "req_kib: g:>=128KiB sequential | y:4-16KiB random"@),
            (RowKind::Txt, ""@, ""@),
            (RowKind::Hdr, ""@, "PRESSURE AND IOWAIT"@),
            (RowKind::Key, "io pressure"@, "psi: % of time I/O stalls the machine"@),
            (RowKind::Colors, ""@, "g:<5 fine | y:5-10 watch | r:>10 stressed"@),
            (RowKind::Key, "iowait"@, "% idle waiting on I/O (CPU line)"@),
            (RowKind::Txt, ""@, "sustained >15-20% + high await = disk bottleneck;"@),
            (RowKind::Txt, ""@, "high iowait + normal await = paging (low RAM)"@),
            (RowKind::Txt, ""@, ""@),
            (RowKind::Hdr, ""@, "PER-PROCESS I/O"@),
            (RowKind::Txt, ""@, "read_bytes/write_bytes = real storage bytes (not rchar/"@),
            (RowKind::Txt, ""@, "wchar which include cache); own processes only (yama),"@),
            (RowKind::Txt, ""@, "root sees all"@),
        ]
    } else {
        seq![]
    }
}

/// The title and rows of help page `page` (counted from 0).
fn page_content(page: usize, lang: Lang) -> (r: (String, Vec<HelpRow<'static>>))
    requires
        page < HELP_PAGES,
    ensures
        r.0@ == page_title(lang, page as nat),
        row_views(r.1@) == page_rows(lang, page as nat),
{
    if lang == Lang::Pt && page == 0 {
        let rows = vec![
            hdr("PAINEIS — Tab alterna"),
            key("Tab", "alterna: Processos → CPU → IO → NET"),
            key("1-4", "focam o painel (1 CPU · 2 IO · 3 NET · 4 PROC);"),
            key("", "repetir o numero do painel em foco volta ao anterior"),
            key("← →", "no painel CPU: move o nucleo focado"),
            key("Enter", "filtra os processos do nucleo focado (Esc volta)"),
            key("↑ ↓", "selecionam processo; PgUp/PgDn/Home/End pulam"),
            txt(""),
            hdr("ACOES"),
            key("q", "sair · z pausa · s trace de syscalls"),
            key("k", "kill: 1=SIGTERM, 9=SIGKILL, 0=cancela (prompt)"),
            key("p/m", "ordena por CPU/MEM · i inverte a ordem"),
            key("c", "comando completo · t arvore · H threads · K kernel"),
            key("/", "busca · C tema de cor · L idioma PT/EN"),
            txt(""),
            hdr("HELP"),
            key("n/p", "proxima/anterior pagina (ou PgUp/PgDn)"),
            key("?/q", "fecha o help"),
        ];
        assert(row_views(rows@) =~= page_rows(lang, page as nat));
        (String::from_str("help 1/5 — teclas"), rows)
    } else if lang == Lang::En && page == 0 {
        let rows = vec![
            hdr("PAGES — Tab cycles"),
            key("Tab", "cycles: Cpu → IO → NET"),
            key("1-4", "focus a pane (1 CPU · 2 IO · 3 NET · 4 PROC);"),
            key("", "repeat the focused pane's number to return to previous"),
            key("← →", "CPU pane: move the focused core"),
            key("Enter", "filter processes of the focused core (Esc clears)"),
            key("↑ ↓", "select a process; PgUp/PgDn/Home/End jump"),
            txt(""),
            hdr("ACTIONS"),
            key("q", "quit · z pause · s syscall trace"),
            key("k", "kill: 1=SIGTERM, 9=SIGKILL, 0=cancel (prompt)"),
            key("p/m", "sort by CPU/MEM · i invert order"),
            key("c", "full command · t tree · H threads · K kernel"),
            key("/", "search · C color theme · L language PT/EN"),
            txt(""),
            hdr("HELP"),
            key("n/p", "next/previous page (or PgUp/PgDn)"),
            key("?/q", "close help"),
        ];
        assert(row_views(rows@) =~= page_rows(lang, page as nat));
        (String::from_str("help 1/5 — keys"), rows)
    } else if lang == Lang::Pt && page == 1 {
        let rows = vec![
            hdr("VISAO GERAL"),
            key("overall", "uso total da CPU (barra + %)"),
            key("load a b c", "load average 1/5/15 min"),
            key("iowait", "% do tempo ocioso esperando I/O (gargalo de disco)"),
            txt(""),
            hdr("TIPOS DE NUCLEO"),
            cols("g:P  Performance: L2 privado, o mais rapido | y:E  Efficient: compartilha L2 num cluster | r:L  Low-power: clock baixo, economiza bateria"),
            txt(""),
            hdr("CORES E VALORES"),
            cols("GHz vs limite do nucleo: g:verde <33% | y:amarelo 33-66% | r:vermelho >66%"),
            cols("°C cor = tipo do nucleo (P/E/L) | barra: g:verde <50% | y:amarelo 50-80% | r:vermelho >80%"),
        ];
        assert(row_views(rows@) =~= page_rows(lang, page as nat));
        (String::from_str("help 2/5 — bloco CPU"), rows)
    } else if lang == Lang::En && page == 1 {
        let rows = vec![
            hdr("OVERVIEW"),
            key("overall", "total CPU usage (bar + %)"),
            key("load a b c", "load average 1/5/15 min"),
            key("iowait", "% of idle time waiting on I/O (disk bottleneck)"),
            txt(""),
            hdr("CORE TYPES"),
            cols("g:P  Performance: private L2, fastest | y:E  Efficient: shares L2 in a cluster | r:L  Low-power: low clock, saves battery"),
            txt(""),
            hdr("COLORS AND VALUES"),
            cols("GHz vs core limit: g:green <33% | y:yellow 33-66% | r:red >66%"),
            cols("°C colored by core type (P/E/L) | bar: g:green <50% | y:yellow 50-80% | r:red >80%"),
        ];
        assert(row_views(rows@) =~= page_rows(lang, page as nat));
        (String::from_str("help 2/5 — CPU block"), rows)
    } else if lang == Lang::Pt && page == 2 {
        let rows = vec![
            hdr("MEM — barra empilhada"),
            cols("g:verde = usado por apps (nao liberavel) | y:amarelo = cache (liberavel) | a:azul = buffers de I/O | cinza = livre"),
            txt("sem RAM, o kernel descarta o amarelo primeiro; o verde"),
            txt("so cai fechando apps — a soma de tudo = total"),
            key("swap", "uso com barra e %"),
            key("psi", "pressao de memoria (10s/60s/300s): estresse ANTES de travar"),
            cols("g:<5% ok | y:5-10% atencao | r:>10% estresse"),
            txt(""),
            hdr("DISKS"),
            txt("linha: nome | barra | % | usado/total | mount"),
            cols("barra: g:<70% ok | y:70-85% | r:>85%"),
            txt("subvolumes btrfs do mesmo disco agrupados num nome so"),
            txt(""),
            hdr("PAINEL IO (Tab)"),
            txt("taxas read/write desde o ultimo refresh; barras escalam"),
            txt("pelo disco mais rapido — leitura azul, escrita amarelo"),
            txt("pagina 5 explica cada stat e os bons valores"),
        ];
        assert(row_views(rows@) =~= page_rows(lang, page as nat));
        (String::from_str("help 3/5 — memoria e discos"), rows)
    } else if lang == Lang::En && page == 2 {
        let rows = vec![
            hdr("MEM — stacked bar"),
            cols("g:green = used by apps (not reclaimable) | y:yellow = cache (reclaimable) | a:blue = I/O buffers | gray = free"),
            txt("out of RAM the kernel drops the yellow first; green"),
            txt("only drops when apps close — segments sum to total"),
            key("swap", "usage with bar and %"),
            key("psi", "memory pressure (10s/60s/300s): stress BEFORE the freeze"),
            cols("g:<5% fine | y:5-10% watch | r:>10% stressed"),
            txt(""),
            hdr("DISKS"),
            txt("row: name | bar | % | used/total | mount"),
            cols("bar: g:<70% fine | y:70-85% | r:>85%"),
            txt("btrfs subvolumes of the same disk grouped under one name"),
            txt(""),
            hdr("IO PANE (Tab)"),
            txt("read/write rates since last refresh; bars scale to"),
            txt("the fastest disk — read blue, write yellow"),
            txt("page 5 explains every stat and good values"),
        ];
        assert(row_views(rows@) =~= page_rows(lang, page as nat));
        (String::from_str("help 3/5 — memory and disks"), rows)
    } else if lang == Lang::Pt && page == 3 {
        let rows = vec![
            hdr("TABELA DE PROCESSOS"),
            txt("colunas: PID | USER | CPU% | MEM | COMMAND; seta = ordenada"),
            txt("CPU% e por nucleo (100% = 1 nucleo inteiro), como o htop"),
            key("Enter", "num nucleo = filtra os processos daquele nucleo"),
            key("H", "mostra threads · K mostra threads do kernel"),
            txt(""),
            hdr("TRACE (tecla s)"),
            txt("syscalls do processo selecionado ao vivo; s/q para parar"),
            txt("(detach — o processo continua rodando)"),
            txt("so funciona em filhos (yama ptrace_scope=1):"),
            txt("  perfo trace -- <comando>   → spawna e traca"),
            txt("  sudo sysctl kernel.yama.ptrace_scope=0  → libera todos"),
            txt(""),
            hdr("FORA DO TUI"),
            txt("perfo cpu --json  → dados pro widget do Omarchy"),
            txt("perfo bench       → perfil de refresh (flamegraph)"),
        ];
        assert(row_views(rows@) =~= page_rows(lang, page as nat));
        (String::from_str("help 4/5 — processos e trace"), rows)
    } else if lang == Lang::En && page == 3 {
        let rows = vec![
            hdr("PROCESS TABLE"),
            txt("columns: PID | USER | CPU% | MEM | COMMAND; arrow = sorted"),
            txt("CPU% is per core (100% = one full core), like htop"),
            key("Enter", "on a core = filter processes of that core"),
            key("H", "show threads · K show kernel threads"),
            txt(""),
            hdr("TRACE (key s)"),
            txt("live syscalls of the selected process; s/q stops"),
            txt("(detach — the process keeps running)"),
            txt("only works on children (yama ptrace_scope=1):"),
            txt("  perfo trace -- <command>   → spawns and traces"),
            txt("  sudo sysctl kernel.yama.ptrace_scope=0  → allows all"),
            txt(""),
            hdr("OUTSIDE THE TUI"),
            txt("perfo cpu --json  → data for the Omarchy widget"),
            txt("perfo bench       → refresh profiling (flamegraph)"),
        ];
        assert(row_views(rows@) =~= page_rows(lang, page as nat));
        (String::from_str("help 4/5 — processes and trace"), rows)
    } else if lang == Lang::Pt && page == 4 {
        let rows = vec![
            hdr("IOPS"),
            key("r/s w/s", "operacoes de leitura/escrita por segundo"),
            txt("milhares num NVMe; IOPS alto + taxa baixa = I/O aleatorio"),
            txt(""),
            hdr("LATENCIA — o numero que importa"),
            key("r_awt/w_awt", "tempo medio da op em ms, fila incluida"),
            cols("g:<2ms saudavel | y:2-10ms ok | r:>=10ms saturado — NVMe bom fica <1ms"),
            txt(""),
            hdr("FILA E BUSY"),
            key("fila", "requisicoes em voo (aqu-sz)"),
            cols("g:<2 | y:2-8 | r:>=8 — HDD: >1 ja enfileira"),
            key("busy", "% do tempo com alguma op em voo. CUIDADO: em NVMe"),
            txt("100% NAO e saturacao (16 filas paralelas);"),
            txt("confie em r_awt/w_awt + fila, nao em busy"),
            txt(""),
            hdr("MERGE E REQUEST SIZE (JSON)"),
            key("merge_pct", "% de requests juntados pelo kernel — alto = sequencial"),
            cols("req_kib: g:>=128KiB sequencial | y:4-16KiB randomico"),
            txt(""),
            hdr("PRESSAO E IOWAIT"),
            key("io pressure", "psi: % do tempo com I/O travando a maquina"),
            cols("g:<5 ok | y:5-10 atencao | r:>10 estresse"),
            key("iowait", "% ocioso esperando I/O (linha do CPU)"),
            txt(">15-20% sustentado + await alto = gargalo de disco;"),
            txt("iowait alto + await normal = paging (falta RAM)"),
            txt(""),
            hdr("I/O POR PROCESSO"),
            txt("read_bytes/write_bytes = bytes REAIS no storage (nao rchar/"),
            txt("wchar que incluem cache); so teus processos (yama),"),
            txt("root ve todos"),
        ];
        assert(row_views(rows@) =~= page_rows(lang, page as nat));
        (String::from_str("help 5/5 — IO: o que cada stat significa"), rows)
    } else if lang == Lang::En && page == 4 {
        let rows = vec![
            hdr("IOPS"),
            key("r/s w/s", "read/write operations per second"),
            txt("thousands on NVMe; high IOPS + low throughput = random I/O"),
            txt(""),
            hdr("LATENCY — the number that matters"),
            key("r_awt/w_awt", "average op time in ms, queue included"),
            cols("g:<2ms healthy | y:2-10ms ok | r:>=10ms saturated — healthy NVMe stays <1ms"),
            txt(""),
            hdr("QUEUE AND BUSY"),
            key("fila", "in-flight requests (aqu-sz)"),
            cols("g:<2 | y:2-8 | r:>=8 — HDD: >1 already queues"),
            key("busy", "% of time with an op in flight. CAUTION: on NVMe"),
            txt("100% is NOT saturation (16 parallel queues);"),
            txt("trust r_awt/w_awt + fila, not busy"),
            txt(""),
            hdr("MERGE AND REQUEST SIZE (JSON)"),
            key("merge_pct", "% of requests merged by the kernel — high = sequential"),
            cols("req_kib: g:>=128KiB sequential | y:4-16KiB random"),
            txt(""),
            hdr("PRESSURE AND IOWAIT"),
            key("io pressure", "psi: % of time I/O stalls the machine"),
            cols("g:<5 fine | y:5-10 watch | r:>10 stressed"),
            key("iowait", "% idle waiting on I/O (CPU line)"),
            txt("sustained >15-20% + high await = disk bottleneck;"),
            txt("high iowait + normal await = paging (low RAM)"),
            txt(""),
            hdr("PER-PROCESS I/O"),
            txt("read_bytes/write_bytes = real storage bytes (not rchar/"),
            txt("wchar which include cache); own processes only (yama),"),
            txt("root sees all"),
        ];
        assert(row_views(rows@) =~= page_rows(lang, page as nat));
        (String::from_str("help 5/5 — IO: what each stat means"), rows)
    } else {
        assert(page == 4 && lang == Lang::En);
        (String::new(), Vec::new())
    }
}

/// Help page `page` (counted from 0): its title and its rendered lines.
pub fn page(n: usize, lang: Lang) -> (r: (String, Vec<HelpLine>))
    requires
        n < HELP_PAGES,
    ensures
        r.0@ == page_title(lang, n as nat),
        line_views(r.1@) == page_rows(lang, n as nat).map_values(|row| spec_row_line(row)),
{
    let (title, rows) = page_content(n, lang);
    let lines = help_lines(rows.as_slice());
    (title, lines)
}

/// A `Colors` row has two spans per `|`-separated segment: the colored
/// text and the spacing after it.
pub proof fn law_two_spans_per_segment(s: Seq<char>)
    ensures
        spec_colorized(s).len() == 2 * spec_split(s, '|').len(),
{
    lemma_segment_spans_len(spec_split(s, '|'));
}

proof fn lemma_segment_spans_len(parts: Seq<Seq<char>>)
    ensures
        segment_spans(parts).len() == 2 * parts.len(),
    decreases parts.len(),
{
    if parts.len() > 0 {
        lemma_segment_spans_len(parts.drop_last());
    }
}

/// Splitting at a separator gives one more piece than there are
/// separators, so a row without `|` is a single segment.
pub proof fn law_split_without_separator(s: Seq<char>)
    requires
        forall|i: int| 0 <= i < s.len() ==> s[i] != '|',
    ensures
        spec_split(s, '|') == seq![s],
{
    crate::text::lemma_len_before(s, '|', s.len() as int);
}

/// A segment starting `g:`, `y:`, `r:` or `a:` (after trimming) is drawn
/// in green, yellow, red or the accent color without its prefix; any
/// other segment is drawn whole in the foreground color.
pub proof fn law_segment_colors(part: Seq<char>, x: Seq<char>)
    ensures
        spec_trim(part) == seq!['g', ':'] + x ==> segment_span(part) == (x, Tone::Green, false),
        spec_trim(part) == seq!['y', ':'] + x ==> segment_span(part) == (x, Tone::Yellow, false),
        spec_trim(part) == seq!['r', ':'] + x ==> segment_span(part) == (x, Tone::Red, false),
        spec_trim(part) == seq!['a', ':'] + x ==> segment_span(part) == (x, Tone::Accent, false),
        spec_trim(part).len() < 2 || spec_trim(part)[1] != ':' ==> segment_span(part) == (
            spec_trim(part),
            Tone::Fg,
            false,
        ),
{
    reveal_strlit("g:");
    reveal_strlit("y:");
    reveal_strlit("r:");
    reveal_strlit("a:");
    let p = spec_trim(part);
    assert("g:"@ =~= seq!['g', ':']);
    assert("y:"@ =~= seq!['y', ':']);
    assert("r:"@ =~= seq!['r', ':']);
    assert("a:"@ =~= seq!['a', ':']);
    if p.len() >= 2 {
        assert(p.take(2) =~= seq![p[0], p[1]]);
    }
    if p == seq!['g', ':'] + x || p == seq!['y', ':'] + x || p == seq!['r', ':'] + x || p == seq![
        'a',
        ':',
    ] + x {
        assert(p.skip(2) =~= x);
    }
}

} // verus!
