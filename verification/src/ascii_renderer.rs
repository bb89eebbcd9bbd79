//! Rendering point clouds onto a character grid.
//!
//! Projected points are sorted back to front, depth-tested per cell,
//! and mapped to glyphs of a density ramp; the grid is flattened to a
//! newline-joined string, optionally wrapped in ANSI 256-color escapes.

use vstd::prelude::*;
use crate::{AltostratusError, Color, Point3D, PointCloud, Result};
use crate::axes::{Axes, AxesConfig};
use crate::camera::Camera;
use crate::fixed::{SCALE, abs, trunc_div};
use crate::renderer::{DepthBuffer, Projector, ScreenPoint, sort_back_to_front};
use crate::text::{dec_digits, push_decimal};

verus! {

/// ASCII character sets for different density styles.
#[derive(Debug, Clone, PartialEq, Eq)]
pub enum CharacterSet {
    /// Simple density progression: `" .:-=+*#%@"`.
    Standard,
    /// Shaded blocks.
    Blocks,
    /// Dots and circles.
    Dots,
    /// A custom character set, lightest to densest.
    Custom(Vec<char>),
}

/// The glyphs of a character set, lightest to densest.
pub open spec fn charset_seq(cs: &CharacterSet) -> Seq<char> {
    match cs {
        CharacterSet::Standard => seq![' ', '.', ':', '-', '=', '+', '*', '#', '%', '@'],
        CharacterSet::Blocks => seq![' ', '\u{2591}', '\u{2592}', '\u{2593}', '\u{2588}'],
        CharacterSet::Dots => seq![' ', '.', '\u{b7}', '\u{2022}', '\u{25cb}', '\u{25cf}'],
        CharacterSet::Custom(chars) => chars@,
    }
}

impl CharacterSet {
    /// Gets the characters for this set, from lightest to darkest.
    pub fn chars(&self) -> (r: Vec<char>)
        ensures
            r@ == charset_seq(self),
    {
        match self {
            CharacterSet::Standard => {
                let mut v: Vec<char> = Vec::new();
                v.push(' ');
                v.push('.');
                v.push(':');
                v.push('-');
                v.push('=');
                v.push('+');
                v.push('*');
                v.push('#');
                v.push('%');
                v.push('@');
                proof {
                    assert(v@ =~= charset_seq(self));
                }
                v
            },
            CharacterSet::Blocks => {
                let mut v: Vec<char> = Vec::new();
                v.push(' ');
                v.push('\u{2591}');
                v.push('\u{2592}');
                v.push('\u{2593}');
                v.push('\u{2588}');
                proof {
                    assert(v@ =~= charset_seq(self));
                }
                v
            },
            CharacterSet::Dots => {
                let mut v: Vec<char> = Vec::new();
                v.push(' ');
                v.push('.');
                v.push('\u{b7}');
                v.push('\u{2022}');
                v.push('\u{25cb}');
                v.push('\u{25cf}');
                proof {
                    assert(v@ =~= charset_seq(self));
                }
                v
            },
            CharacterSet::Custom(chars) => {
                let mut v: Vec<char> = Vec::new();
                let n: usize = chars.len();
                let mut i: usize = 0;
                while i < n
                    invariant
                        i <= n,
                        n == chars@.len(),
                        v@ == chars@.subrange(0, i as int),
                    decreases n - i,
                {
                    v.push(chars[i]);
                    proof {
                        assert(v@ =~= chars@.subrange(0, i + 1));
                    }
                    i = i + 1;
                }
                proof {
                    assert(chars@.subrange(0, n as int) == chars@);
                }
                v
            },
        }
    }

    /// Gets the number of density levels in this character set.
    pub fn levels(&self) -> (r: usize)
        ensures
            r == charset_seq(self).len(),
    {
        match self {
            CharacterSet::Standard => 10,
            CharacterSet::Blocks => 5,
            CharacterSet::Dots => 6,
            CharacterSet::Custom(chars) => chars.len(),
        }
    }
}

impl Default for CharacterSet {
    fn default() -> (r: Self)
        ensures
            r == CharacterSet::Standard,
    {
        CharacterSet::Standard
    }
}

/// The ramp position a depth maps to, within the visible glyphs.
pub open spec fn depth_char_index(count: int, depth: int) -> int {
    let clamped = if depth < 0 {
        0
    } else if depth > 950_000 {
        950_000
    } else {
        depth
    };
    let idx = (950_000 - clamped) * (count - 1) / 950_000;
    if idx > count - 1 {
        count - 1
    } else {
        idx
    }
}

/// The glyph for a depth: depths are clamped to the practical far
/// cutoff of 0.95 units, normalized, inverted (near is dense), and
/// mapped over the visible glyphs; the first glyph is reserved for the
/// background.
pub open spec fn depth_char_spec(chars: Seq<char>, depth: int) -> char {
    if chars.len() == 0 {
        ' '
    } else if chars.len() == 1 {
        chars[0]
    } else {
        let clamped = if depth < 0 {
            0
        } else if depth > 950_000 {
            950_000
        } else {
            depth
        };
        chars[1 + depth_char_index(chars.len() - 1, depth)]
    }
}

/// The density ramp is monotonic: a nearer depth never maps to a
/// lighter glyph than a farther one, and depths beyond the practical
/// far cutoff of 0.95 units all map alike.
pub proof fn lemma_depth_char_monotonic(chars: Seq<char>, d1: int, d2: int)
    requires
        chars.len() >= 2,
        d1 <= d2,
    ensures
        depth_char_index(chars.len() - 1, d1) >= depth_char_index(chars.len() - 1, d2),
        depth_char_spec(chars, d1) == chars[1 + depth_char_index(chars.len() - 1, d1)],
        depth_char_spec(chars, d2) == chars[1 + depth_char_index(chars.len() - 1, d2)],
        d1 >= 950_000 && d2 >= 950_000 ==> depth_char_spec(chars, d1) == depth_char_spec(
            chars,
            d2,
        ),
{
    let count = chars.len() - 1;
    let c1 = if d1 < 0 {
        0
    } else if d1 > 950_000 {
        950_000
    } else {
        d1
    };
    let c2 = if d2 < 0 {
        0
    } else if d2 > 950_000 {
        950_000
    } else {
        d2
    };
    assert(c1 <= c2);
    assert((950_000 - c2) * (count - 1) <= (950_000 - c1) * (count - 1)) by (nonlinear_arith)
        requires
            c1 <= c2,
            count >= 1,
    ;
    vstd::arithmetic::div_mod::lemma_div_is_ordered(
        (950_000 - c2) * (count - 1),
        (950_000 - c1) * (count - 1),
        950_000int,
    );
}

/// Glyphs above the reserved background slot never map below it, so a
/// visible point never renders as the set's own background glyph.
pub open spec fn charset_distinct(chars: Seq<char>, background: char) -> bool {
    chars.len() >= 2 && forall|i: int| 1 <= i < chars.len() ==> chars[i] != background
}

/// The xterm 256-color palette index of a color: each channel quantized
/// to six levels.
pub open spec fn ansi_index_spec(c: Color) -> int {
    16 + 36 * (c.r * 5 / 255) + 6 * (c.g * 5 / 255) + (c.b * 5 / 255)
}

/// The ANSI escape that selects a color: `ESC [38;5;<index>m`.
pub open spec fn color_prefix_spec(c: Color) -> Seq<char> {
    "\u{1b}[38;5;"@ + dec_digits(ansi_index_spec(c) as nat) + seq!['m']
}

/// The ANSI escape that resets the color.
pub open spec fn reset_spec() -> Seq<char> {
    "\u{1b}[0m"@
}

/// One grid cell as text: the glyph alone, or wrapped in its color
/// escape when color is on and the glyph is not the background.
pub open spec fn cell_string(
    ch: char,
    col: Color,
    use_color: bool,
    background: char,
) -> Seq<char> {
    if use_color && ch != background {
        color_prefix_spec(col) + seq![ch] + reset_spec()
    } else {
        seq![ch]
    }
}

/// The first `k` cells of row `y` as text.
pub open spec fn row_prefix_string(
    chars: Seq<char>,
    cols: Seq<Color>,
    w: int,
    y: int,
    k: int,
    use_color: bool,
    background: char,
) -> Seq<char>
    decreases k,
{
    if k <= 0 {
        Seq::empty()
    } else {
        row_prefix_string(chars, cols, w, y, k - 1, use_color, background) + cell_string(
            chars[y * w + (k - 1)],
            cols[y * w + (k - 1)],
            use_color,
            background,
        )
    }
}

/// The first `k` rows as text, rows separated by newlines.
pub open spec fn grid_prefix_string(
    chars: Seq<char>,
    cols: Seq<Color>,
    w: int,
    k: int,
    use_color: bool,
    background: char,
) -> Seq<char>
    decreases k,
{
    if k <= 0 {
        Seq::empty()
    } else if k == 1 {
        row_prefix_string(chars, cols, w, 0, w, use_color, background)
    } else {
        grid_prefix_string(chars, cols, w, k - 1, use_color, background) + seq!['\n']
            + row_prefix_string(chars, cols, w, k - 1, w, use_color, background)
    }
}

/// The whole grid as text: rows joined by newlines, no trailing
/// newline.
pub open spec fn grid_string(
    chars: Seq<char>,
    cols: Seq<Color>,
    w: int,
    h: int,
    use_color: bool,
    background: char,
) -> Seq<char> {
    grid_prefix_string(chars, cols, w, h, use_color, background)
}

/// Some cell of the grid shows other than the background character.
pub open spec fn has_visible_cell(cb: Seq<char>, background: char) -> bool {
    exists|ci: int| 0 <= ci < cb.len() && cb[ci] != background
}

/// The text of an all-background grid: exactly `h` lines, each of
/// exactly `w` background characters, joined by newlines.
pub proof fn lemma_blank_grid_text(cb: Seq<char>, colb: Seq<Color>, w: int, h: int, bg: char)
    requires
        w >= 1,
        h >= 1,
        cb.len() == w * h,
        forall|i: int| 0 <= i < cb.len() ==> cb[i] == bg,
    ensures
        grid_string(cb, colb, w, h, false, bg) == joined(Seq::new(h as nat, |r: int| repeat_char(bg, w))),
{
    lemma_blank_grid_prefix(cb, colb, w, h, h, bg);
    assert(grid_string(cb, colb, w, h, false, bg) == grid_prefix_string(cb, colb, w, h, false, bg));
}

/// Every prefix of an all-background grid flattens to that many
/// background rows.
proof fn lemma_blank_grid_prefix(cb: Seq<char>, colb: Seq<Color>, w: int, h: int, k: int, bg: char)
    requires
        w >= 1,
        h >= 1,
        0 <= k <= h,
        cb.len() == w * h,
        forall|i: int| 0 <= i < cb.len() ==> cb[i] == bg,
    ensures
        grid_prefix_string(cb, colb, w, k, false, bg) == joined(
            Seq::new(k as nat, |r: int| repeat_char(bg, w)),
        ),
    decreases k,
{
    if k <= 0 {
        assert(Seq::new(0nat, |r: int| repeat_char(bg, w)) =~= Seq::<Seq<char>>::empty());
    } else if k == 1 {
        lemma_blank_row_prefix(cb, colb, w, h, 0, w, bg);
        let rows = Seq::new(1nat, |r: int| repeat_char(bg, w));
        assert(joined(rows) == rows[0]);
    } else {
        lemma_blank_grid_prefix(cb, colb, w, h, k - 1, bg);
        lemma_blank_row_prefix(cb, colb, w, h, k - 1, w, bg);
        let rows = Seq::new(k as nat, |r: int| repeat_char(bg, w));
        let prev = Seq::new((k - 1) as nat, |r: int| repeat_char(bg, w));
        assert(rows.drop_last() =~= prev);
        assert(rows.last() == repeat_char(bg, w));
        assert(joined(rows) == joined(prev) + seq!['\n'] + repeat_char(bg, w));
    }
}

/// Every prefix of an all-background row flattens to that many
/// background characters.
proof fn lemma_blank_row_prefix(
    cb: Seq<char>,
    colb: Seq<Color>,
    w: int,
    h: int,
    y: int,
    k: int,
    bg: char,
)
    requires
        w >= 1,
        h >= 1,
        0 <= y < h,
        0 <= k <= w,
        cb.len() == w * h,
        forall|i: int| 0 <= i < cb.len() ==> cb[i] == bg,
    ensures
        row_prefix_string(cb, colb, w, y, k, false, bg) == repeat_char(bg, k),
    decreases k,
{
    if k > 0 {
        lemma_blank_row_prefix(cb, colb, w, h, y, k - 1, bg);
        assert(0 <= y * w + (k - 1) < w * h) by (nonlinear_arith)
            requires
                0 <= y < h,
                0 < k <= w,
        ;
        assert(cb[y * w + (k - 1)] == bg);
        assert(row_prefix_string(cb, colb, w, y, k, false, bg) =~= repeat_char(bg, k - 1).push(
            bg,
        ));
    }
}

/// A screen point that lands on a grid cell: inside the viewport, its
/// rounded pixel in bounds, and strictly nearer than the far plane.
pub open spec fn lands_on_cell(sp: ScreenPoint, w: u32, h: u32) -> bool {
    &&& 0 <= sp.x && 0 <= sp.y
    &&& sp.x < w * SCALE && sp.y < h * SCALE
    &&& crate::fixed::round_units(sp.x as int) < w
    &&& crate::fixed::round_units(sp.y as int) < h
    &&& 0 <= sp.depth < SCALE
}

/// ASCII renderer that outputs text-based visualizations.
#[derive(Debug)]
pub struct AsciiRenderer {
    width: u32,
    height: u32,
    character_set: CharacterSet,
    background_char: char,
    use_color: bool,
    projector: Projector,
    depth_buffer: DepthBuffer,
    axes_config: Option<AxesConfig>,
}

impl AsciiRenderer {
    /// The viewport width, in characters.
    pub closed spec fn width_spec(&self) -> u32 {
        self.width
    }

    /// The viewport height, in characters.
    pub closed spec fn height_spec(&self) -> u32 {
        self.height
    }

    /// The character set in use.
    pub closed spec fn character_set_spec(&self) -> CharacterSet {
        self.character_set
    }

    /// The background character.
    pub closed spec fn background_char_spec(&self) -> char {
        self.background_char
    }

    /// Whether ANSI color output is on.
    pub closed spec fn use_color_spec(&self) -> bool {
        self.use_color
    }

    /// The axes configuration, if axes are enabled.
    pub closed spec fn axes_config_spec(&self) -> Option<AxesConfig> {
        self.axes_config
    }

    /// A consistent renderer: positive dimensions that fit a buffer,
    /// with the projector and the depth buffer sized to them, and a
    /// generator-ready axes configuration when axes are on.
    pub open spec fn wf(&self) -> bool {
        &&& 1 <= self.width_spec()
        &&& 1 <= self.height_spec()
        &&& self.width_spec() * self.height_spec() <= u32::MAX
        &&& self.projector_spec().width_spec() == self.width_spec()
        &&& self.projector_spec().height_spec() == self.height_spec()
        &&& self.depth_buffer_spec().wf()
        &&& self.depth_buffer_spec().width_spec() == self.width_spec()
        &&& self.depth_buffer_spec().height_spec() == self.height_spec()
        &&& (self.axes_config_spec() matches Some(c) ==> c.wf())
        &&& charset_seq(&self.character_set_spec()).len() <= 1_000_000
    }

    /// The owned projector.
    pub closed spec fn projector_spec(&self) -> Projector {
        self.projector
    }

    /// The owned depth buffer.
    pub closed spec fn depth_buffer_spec(&self) -> DepthBuffer {
        self.depth_buffer
    }

    /// Creates a new ASCII renderer with the given dimensions.
    ///
    /// Fails exactly when either dimension is zero.
    pub fn new(width: u32, height: u32) -> (r: Result<Self>)
        requires
            width * height <= u32::MAX,
        ensures
            r is Ok <==> (width > 0 && height > 0),
            r matches Ok(a) ==> {
                &&& a.wf()
                &&& a.width_spec() == width && a.height_spec() == height
                &&& a.character_set_spec() == CharacterSet::Standard
                &&& a.background_char_spec() == ' '
                &&& a.use_color_spec() == false
                &&& a.axes_config_spec() is None
            },
            r is Err ==> (r matches Err(AltostratusError::InvalidParameter(_))),
    {
        let projector = match Projector::new(width, height) {
            Ok(p) => p,
            Err(e) => {
                return Err(e);
            },
        };
        let depth_buffer = match DepthBuffer::new(width, height) {
            Ok(b) => b,
            Err(e) => {
                return Err(e);
            },
        };
        Ok(
            Self {
                width,
                height,
                character_set: CharacterSet::Standard,
                background_char: ' ',
                use_color: false,
                projector,
                depth_buffer,
                axes_config: None,
            },
        )
    }

    /// Creates a new ASCII renderer with color support.
    pub fn with_color(width: u32, height: u32) -> (r: Result<Self>)
        requires
            width * height <= u32::MAX,
        ensures
            r is Ok <==> (width > 0 && height > 0),
            r matches Ok(a) ==> {
                &&& a.wf()
                &&& a.width_spec() == width && a.height_spec() == height
                &&& a.use_color_spec() == true
                &&& a.background_char_spec() == ' '
                &&& a.axes_config_spec() is None
            },
    {
        let mut renderer = match Self::new(width, height) {
            Ok(x) => x,
            Err(e) => {
                return Err(e);
            },
        };
        renderer.use_color = true;
        Ok(renderer)
    }

    /// Sets the character set for rendering.
    pub fn set_character_set(&mut self, character_set: CharacterSet)
        requires
            charset_seq(&character_set).len() <= 1_000_000,
        ensures
            final(self).character_set_spec() == character_set,
            final(self).width_spec() == old(self).width_spec(),
            final(self).height_spec() == old(self).height_spec(),
            final(self).background_char_spec() == old(self).background_char_spec(),
            final(self).use_color_spec() == old(self).use_color_spec(),
            final(self).axes_config_spec() == old(self).axes_config_spec(),
            old(self).wf() ==> final(self).wf(),
    {
        self.character_set = character_set;
    }

    /// Gets the current character set.
    pub fn character_set(&self) -> (r: &CharacterSet)
        ensures
            r == self.character_set_spec(),
    {
        &self.character_set
    }

    /// Sets the background character.
    pub fn set_background_char(&mut self, ch: char)
        ensures
            final(self).background_char_spec() == ch,
            final(self).width_spec() == old(self).width_spec(),
            final(self).height_spec() == old(self).height_spec(),
            final(self).character_set_spec() == old(self).character_set_spec(),
            final(self).use_color_spec() == old(self).use_color_spec(),
            final(self).axes_config_spec() == old(self).axes_config_spec(),
            old(self).wf() ==> final(self).wf(),
    {
        self.background_char = ch;
    }

    /// Gets the current background character.
    pub fn background_char(&self) -> (r: char)
        ensures
            r == self.background_char_spec(),
    {
        self.background_char
    }

    /// Enables or disables color output.
    pub fn set_color_enabled(&mut self, enable: bool)
        ensures
            final(self).use_color_spec() == enable,
            final(self).width_spec() == old(self).width_spec(),
            final(self).height_spec() == old(self).height_spec(),
            final(self).character_set_spec() == old(self).character_set_spec(),
            final(self).background_char_spec() == old(self).background_char_spec(),
            final(self).axes_config_spec() == old(self).axes_config_spec(),
            old(self).wf() ==> final(self).wf(),
    {
        self.use_color = enable;
    }

    /// Checks if color output is enabled.
    pub fn color_enabled(&self) -> (r: bool)
        ensures
            r == self.use_color_spec(),
    {
        self.use_color
    }

    /// Enables coordinate axes with the given configuration.
    pub fn enable_axes(&mut self, config: AxesConfig)
        requires
            config.wf(),
        ensures
            final(self).axes_config_spec() == Some(config),
            final(self).width_spec() == old(self).width_spec(),
            final(self).height_spec() == old(self).height_spec(),
            final(self).character_set_spec() == old(self).character_set_spec(),
            final(self).background_char_spec() == old(self).background_char_spec(),
            final(self).use_color_spec() == old(self).use_color_spec(),
            old(self).wf() ==> final(self).wf(),
    {
        self.axes_config = Some(config);
    }

    /// Enables coordinate axes with the default configuration.
    pub fn enable_default_axes(&mut self)
        ensures
            final(self).axes_config_spec() == Some(crate::axes::default_axes_config()),
            final(self).width_spec() == old(self).width_spec(),
            final(self).height_spec() == old(self).height_spec(),
            final(self).character_set_spec() == old(self).character_set_spec(),
            final(self).background_char_spec() == old(self).background_char_spec(),
            final(self).use_color_spec() == old(self).use_color_spec(),
            old(self).wf() ==> final(self).wf(),
    {
        self.axes_config = Some(AxesConfig::new());
    }

    /// Disables coordinate axes.
    pub fn disable_axes(&mut self)
        ensures
            final(self).axes_config_spec() is None,
            final(self).width_spec() == old(self).width_spec(),
            final(self).height_spec() == old(self).height_spec(),
            final(self).character_set_spec() == old(self).character_set_spec(),
            final(self).background_char_spec() == old(self).background_char_spec(),
            final(self).use_color_spec() == old(self).use_color_spec(),
            old(self).wf() ==> final(self).wf(),
    {
        self.axes_config = None;
    }

    /// Gets the current axes configuration.
    pub fn axes_config(&self) -> (r: Option<&AxesConfig>)
        ensures
            r is Some <==> self.axes_config_spec() is Some,
            r matches Some(c) ==> Some(*c) == self.axes_config_spec(),
    {
        self.axes_config.as_ref()
    }

    /// Sets a custom axes configuration (`None` to disable).
    pub fn set_axes_config(&mut self, config: Option<AxesConfig>)
        requires
            config matches Some(c) ==> c.wf(),
        ensures
            final(self).axes_config_spec() == config,
            final(self).width_spec() == old(self).width_spec(),
            final(self).height_spec() == old(self).height_spec(),
            final(self).character_set_spec() == old(self).character_set_spec(),
            final(self).background_char_spec() == old(self).background_char_spec(),
            final(self).use_color_spec() == old(self).use_color_spec(),
            old(self).wf() ==> final(self).wf(),
    {
        self.axes_config = config;
    }

    /// Maps a depth (in ticks) to a character from the current set.
    pub fn depth_to_char(&self, depth: i64) -> (c: char)
        requires
            charset_seq(&self.character_set_spec()).len() <= 1_000_000,
        ensures
            c == depth_char_spec(charset_seq(&self.character_set_spec()), depth as int),
    {
        let chars = self.character_set.chars();
        let n: usize = chars.len();
        if n == 0 {
            return ' ';
        }
        if n == 1 {
            return chars[0];
        }
        let clamped: i64 = if depth < 0 {
            0
        } else if depth > 950_000 {
            950_000
        } else {
            depth
        };
        let visible: u64 = (n - 1) as u64;
        proof {
            let cl = clamped as int;
            assert((950_000 - cl) * (visible - 1) >= 0 && (950_000 - cl) * (visible - 1) <= 950_000
                * (visible - 1) && 950_000 * (visible as int - 1) <= 950_000_000_000int)
                by (nonlinear_arith)
                requires
                    0 <= cl <= 950_000,
                    1 <= visible <= 1_000_000,
            ;
        }
        let idx: u64 = ((950_000 - clamped) as u64) * (visible - 1) / 950_000;
        proof {
            let cl = clamped as int;
            vstd::arithmetic::div_mod::lemma_div_is_ordered(
                (950_000 - cl) * (visible as int - 1),
                950_000 * (visible as int - 1),
                950_000int,
            );
            vstd::arithmetic::div_mod::lemma_div_multiples_vanish(visible as int - 1, 950_000int);
            assert(950_000 * (visible as int - 1) == 950_000int * (visible as int - 1));
        }
        let idx2: usize = if idx > visible - 1 {
            (visible - 1) as usize
        } else {
            idx as usize
        };
        chars[1 + idx2]
    }

    /// Converts a color to its ANSI 256-color escape, or the empty
    /// string when color output is off.
    pub fn color_to_ansi(&self, color: Color) -> (s: String)
        ensures
            self.use_color_spec() ==> s@ == color_prefix_spec(color),
            !self.use_color_spec() ==> s@ == Seq::<char>::empty(),
    {
        if !self.use_color {
            return String::new();
        }
        ansi_prefix(color)
    }

    /// The ANSI reset escape, or the empty string when color output is
    /// off.
    pub fn reset_color(&self) -> (s: &'static str)
        ensures
            self.use_color_spec() ==> s@ == reset_spec(),
            !self.use_color_spec() ==> s@ == Seq::<char>::empty(),
    {
        proof {
            reveal_strlit("\u{1b}[0m");
            reveal_strlit("");
        }
        if self.use_color {
            "\u{1b}[0m"
        } else {
            ""
        }
    }

    /// Renders a point cloud to a string grid.
    ///
    /// The cloud is merged with generated axes when enabled, the
    /// camera's aspect ratio is adjusted for the 2:1 cell shape of
    /// terminal glyphs, the points are projected, depth-sorted back to
    /// front, depth-tested per cell, and flattened. The tangent of half
    /// the camera's field of view is supplied in ticks.
    #[verifier::rlimit(100)]
    pub fn render(&mut self, points: &PointCloud, camera: &Camera, tan_half_fov: i64) -> (r: Result<
        String,
    >)
        requires
            old(self).wf(),
            points.wf(),
            points.points_seq().len() <= 100_000_000,
            camera.wf(),
            10_000 <= tan_half_fov <= 1_000_000_000,
            crate::vec3::len_sq(crate::camera::offset_of(*camera)) >= 1,
            old(self).height_spec() <= 10_000 * old(self).width_spec(),
        ensures
            final(self).wf(),
            final(self).width_spec() == old(self).width_spec(),
            final(self).height_spec() == old(self).height_spec(),
            final(self).character_set_spec() == old(self).character_set_spec(),
            final(self).background_char_spec() == old(self).background_char_spec(),
            final(self).use_color_spec() == old(self).use_color_spec(),
            final(self).axes_config_spec() == old(self).axes_config_spec(),
            r is Ok,
            r matches Ok(out) ==> exists|cb: Seq<char>, colb: Seq<Color>|
                {
                    &&& cb.len() == old(self).width_spec() * old(self).height_spec()
                    &&& colb.len() == old(self).width_spec() * old(self).height_spec()
                    &&& out@ == #[trigger] grid_string(
                        cb,
                        colb,
                        old(self).width_spec() as int,
                        old(self).height_spec() as int,
                        old(self).use_color_spec(),
                        old(self).background_char_spec(),
                    )
                    &&& (old(self).axes_config_spec() is None && points.points_seq().len() == 0)
                        ==> cb == Seq::new(
                        (old(self).width_spec() * old(self).height_spec()) as nat,
                        |i: int| old(self).background_char_spec(),
                    )
                    &&& points.points_seq().len() > 0 ==> character_output_ok(
                        cb,
                        *camera,
                        tan_half_fov as int,
                        points.points_seq(),
                        old(self).width_spec(),
                        old(self).height_spec(),
                        old(self).character_set_spec(),
                        old(self).background_char_spec(),
                    )
                },
    {
        let ghost w = self.width_spec();
        let ghost h = self.height_spec();
        let bg: char = self.background_char;

        // Merge user points with generated axes when enabled.
        let mut render_cloud = PointCloud::with_default_color(points.default_color());
        render_cloud.add_points(points.points());
        let mut merged_empty: bool = render_cloud.is_empty();
        match &self.axes_config {
            Some(cfg) => {
                let axes = Axes::new(*cfg);
                let axes_points = axes.generate_points();
                render_cloud.add_points(axes_points.points());
                merged_empty = render_cloud.is_empty();
            },
            None => {},
        }

        if merged_empty {
            let (cb, colb) = blank_grids(self.width, self.height, bg);
            let out = self.buffer_to_string(&cb, &colb);
            proof {
                assert(cb@ =~= Seq::new(
                    (old(self).width_spec() * old(self).height_spec()) as nat,
                    |i: int| old(self).background_char_spec(),
                ));
                assert(out@ == grid_string(
                    cb@,
                    colb@,
                    old(self).width_spec() as int,
                    old(self).height_spec() as int,
                    old(self).use_color_spec(),
                    old(self).background_char_spec(),
                ));
            }
            return Ok(out);
        }
        let ghost merged = render_cloud.points_seq();
        let ghost user = points.points_seq();
        proof {
            if self.axes_config_spec() is None {
                assert(render_cloud.points_seq() == Seq::<Point3D>::empty() + points.points_seq());
                assert(render_cloud.points_seq().len() == points.points_seq().len());
            }
            assert(forall|j: int| 0 <= j < user.len() ==> merged[j] == user[j]) by {
                assert(forall|j: int|
                    0 <= j < user.len() ==> (Seq::<Point3D>::empty() + user)[j] == user[j]);
            }
        }

        // Compensate for the roughly 2:1 height-to-width shape of
        // terminal cells.
        let mut render_camera: Camera = *camera;
        let visual_aspect: i64 = visual_aspect_ratio(self.width, self.height);
        let aspect_result = render_camera.set_aspect_ratio(visual_aspect);
        proof {
            assert(aspect_result is Ok);
            assert(render_camera == ascii_adjusted_camera(*camera, w as int, h as int));
        }

        let projected = self.projector.project_point_cloud(
            &render_cloud,
            &render_camera,
            tan_half_fov,
        );

        let ghost vp = choose|vp: crate::mat4::Mat4|
            #[trigger] crate::camera::is_view_projection_of(render_camera, tan_half_fov as int, vp)
                && projected@ == crate::renderer::visible_seq(vp, merged, w, h);
        if projected.len() == 0 {
            let (cb, colb) = blank_grids(self.width, self.height, bg);
            let out = self.buffer_to_string(&cb, &colb);
            proof {
                assert(out@ == grid_string(
                    cb@,
                    colb@,
                    old(self).width_spec() as int,
                    old(self).height_spec() as int,
                    old(self).use_color_spec(),
                    old(self).background_char_spec(),
                ));
                assert(cb@ =~= Seq::new(
                    (old(self).width_spec() * old(self).height_spec()) as nat,
                    |i: int| old(self).background_char_spec(),
                ));
                assert(!some_point_lands(vp, user, w, h)) by {
                    if some_point_lands(vp, user, w, h) {
                        let j = choose|j: int|
                            0 <= j < user.len() && ((#[trigger] crate::renderer::project_spec(
                                vp,
                                user[j].position,
                                w,
                                h,
                            )) matches Some(sp) && lands_on_cell(sp, w, h));
                        assert(merged[j] == user[j]);
                        crate::renderer::lemma_visible_contains(vp, merged, w, h, j);
                    }
                }
                assert(character_output_ok(cb@, *camera, tan_half_fov as int, user, w, h, old(self).character_set_spec(), old(self).background_char_spec()));
            }
            return Ok(out);
        }

        self.depth_buffer.clear();

        let mut sorted_points = projected;
        let ghost presort = sorted_points@;
        sort_back_to_front(&mut sorted_points);
        proof {
            if charset_distinct(charset_seq(&old(self).character_set_spec()), bg)
                && some_point_lands(vp, user, w, h) {
                let j = choose|j: int|
                    0 <= j < user.len() && ((#[trigger] crate::renderer::project_spec(
                        vp,
                        user[j].position,
                        w,
                        h,
                    )) matches Some(sp) && lands_on_cell(sp, w, h));
                assert(merged[j] == user[j]);
                crate::renderer::lemma_visible_contains(vp, merged, w, h, j);
                let sp = crate::renderer::project_spec(vp, user[j].position, w, h)->Some_0;
                let k0 = choose|k0: int|
                    0 <= k0 < presort.len() && #[trigger] presort[k0] == (user[j], sp);
                assert(presort.contains((user[j], sp))) by {
                    assert(presort[k0] == (user[j], sp));
                }
                crate::renderer::lemma_perm_contains(sorted_points@, presort, (user[j], sp));
                let k = choose|k: int|
                    0 <= k < sorted_points@.len() && #[trigger] sorted_points@[k] == (
                    user[j],
                    sp,
                    );
                assert(lands_on_cell(sorted_points@[k].1, w, h));
            }
        }

        let (cb, colb) = self.rasterize(sorted_points);
        let out = self.buffer_to_string(&cb, &colb);
        proof {
            assert(out@ == grid_string(
                cb@,
                colb@,
                old(self).width_spec() as int,
                old(self).height_spec() as int,
                old(self).use_color_spec(),
                old(self).background_char_spec(),
            ));
            assert(character_output_ok(cb@, *camera, tan_half_fov as int, user, w, h, old(self).character_set_spec(), old(self).background_char_spec()));
        }
        Ok(out)
    }

    /// Writes sorted, projected points into fresh character and color
    /// grids, nearest point winning each cell.
    ///
    /// Every cell holds the background or a glyph of the set; if the
    /// set reserves its first glyph properly and some point lands on a
    /// cell, at least one cell is not the background.
    #[verifier::rlimit(100)]
    #[verifier::spinoff_prover]
    pub fn rasterize(&mut self, pts: Vec<(Point3D, ScreenPoint)>) -> (r: (Vec<char>, Vec<Color>))
        requires
            old(self).wf(),
            forall|i: int|
                0 <= i < old(self).depth_buffer_spec().depth_seq().len()
                    ==> old(self).depth_buffer_spec().depth_seq()[i] == SCALE,
        ensures
            final(self).wf(),
            final(self).width_spec() == old(self).width_spec(),
            final(self).height_spec() == old(self).height_spec(),
            final(self).character_set_spec() == old(self).character_set_spec(),
            final(self).background_char_spec() == old(self).background_char_spec(),
            final(self).use_color_spec() == old(self).use_color_spec(),
            final(self).axes_config_spec() == old(self).axes_config_spec(),
            final(self).projector_spec() == old(self).projector_spec(),
            r.0@.len() == old(self).width_spec() * old(self).height_spec(),
            r.1@.len() == old(self).width_spec() * old(self).height_spec(),
            charset_distinct(
                charset_seq(&old(self).character_set_spec()),
                old(self).background_char_spec(),
            ) && (exists|k: int|
                0 <= k < pts@.len() && lands_on_cell(
                    (#[trigger] pts@[k]).1,
                    old(self).width_spec(),
                    old(self).height_spec(),
                )) ==> has_visible_cell(r.0@, old(self).background_char_spec()),
    {
        let ghost w = self.width_spec();
        let ghost h = self.height_spec();
        let ghost bg = self.background_char_spec();
        let ghost cs = charset_seq(&self.character_set_spec());
        let (mut cb, mut colb) = blank_grids(self.width, self.height, self.background_char);
        let n: usize = pts.len();
        let mut i: usize = 0;
        while i < n
            invariant
                i <= n,
                n == pts@.len(),
                self.wf(),
                *self == (AsciiRenderer { depth_buffer: self.depth_buffer_spec(), ..*old(self) }),
                w == self.width_spec() && h == self.height_spec(),
                bg == self.background_char_spec(),
                cs == charset_seq(&self.character_set_spec()),
                cb@.len() == w * h,
                colb@.len() == w * h,
                forall|ci: int|
                    0 <= ci < cb@.len() ==> #[trigger] self.depth_buffer_spec().depth_seq()[ci]
                        <= SCALE,
                charset_distinct(cs, bg) ==> forall|ci: int|
                    0 <= ci < cb@.len() ==> (#[trigger] self.depth_buffer_spec().depth_seq()[ci]
                        < SCALE ==> cb@[ci] != bg),
                charset_distinct(cs, bg) && (exists|k: int|
                    0 <= k < i && lands_on_cell((#[trigger] pts@[k]).1, w, h)) ==> exists|ci: int|
                    0 <= ci < self.depth_buffer_spec().depth_seq().len()
                        && #[trigger] self.depth_buffer_spec().depth_seq()[ci] < SCALE,
            decreases n - i,
        {
            let ghost db_pre = self.depth_buffer_spec().depth_seq();
            let (p3d, sp): (Point3D, ScreenPoint) = pts[i];
            if !(sp.x < 0 || sp.y < 0 || sp.x >= (self.width as i64) * SCALE || sp.y >= (
            self.height as i64) * SCALE) {
                let px64: i64 = crate::fixed::round_fx(sp.x);
                let py64: i64 = crate::fixed::round_fx(sp.y);
                proof {
                    lemma_round_in_range(sp.x as int, w as int);
                    lemma_round_in_range(sp.y as int, h as int);
                }
                let px: u32 = px64 as u32;
                let py: u32 = py64 as u32;
                if !(px >= self.width || py >= self.height) {
                    let passed: bool = self.depth_buffer.test_and_update(px, py, sp.depth);
                    proof {
                        crate::renderer::lemma_cell_in_grid(px as int, py as int, w as int,
                        h as int);
                    }
                    let idx: usize = ((py as u64) * (self.width as u64) + (px as u64)) as usize;
                    if passed {
                        let ch: char = self.depth_to_char(sp.depth);
                        cb.set(idx, ch);
                        colb.set(idx, p3d.color);
                        proof {
                            if charset_distinct(cs, bg) {
                                lemma_visible_char(cs, sp.depth as int, bg);
                            }
                            assert(self.depth_buffer_spec().depth_seq()[idx as int] == sp.depth);
                            if 0 <= sp.depth < SCALE {
                                assert(exists|ci: int|
                                    0 <= ci < self.depth_buffer_spec().depth_seq().len()
                                        && #[trigger] self.depth_buffer_spec().depth_seq()[ci]
                                        < SCALE);
                            }
                        }
                    } else {
                        proof {
                            if 0 <= sp.depth < SCALE {
                                assert(self.depth_buffer_spec().depth_seq()[idx as int] < SCALE);
                                assert(exists|ci: int|
                                    0 <= ci < self.depth_buffer_spec().depth_seq().len()
                                        && #[trigger] self.depth_buffer_spec().depth_seq()[ci]
                                        < SCALE);
                            }
                        }
                    }
                }
            }
            proof {
                assert(forall|ci: int|
                    0 <= ci < self.depth_buffer_spec().depth_seq().len()
                        ==> #[trigger] self.depth_buffer_spec().depth_seq()[ci] == db_pre[ci]
                        || self.depth_buffer_spec().depth_seq()[ci] < SCALE);
                if charset_distinct(cs, bg) && (exists|k: int|
                    0 <= k < i + 1 && lands_on_cell((#[trigger] pts@[k]).1, w, h)) {
                    let k = choose|k: int|
                        0 <= k < i + 1 && lands_on_cell((#[trigger] pts@[k]).1, w, h);
                    if k < i {
                        let ci = choose|ci: int|
                            0 <= ci < db_pre.len() && #[trigger] db_pre[ci] < SCALE;
                        assert(self.depth_buffer_spec().depth_seq()[ci] < SCALE);
                    } else {
                        assert(lands_on_cell(pts@[i as int].1, w, h));
                        assert(exists|ci: int|
                            0 <= ci < self.depth_buffer_spec().depth_seq().len()
                                && #[trigger] self.depth_buffer_spec().depth_seq()[ci] < SCALE);
                    }
                }
            }
            i = i + 1;
        }
        proof {
            if charset_distinct(
                charset_seq(&old(self).character_set_spec()),
                old(self).background_char_spec(),
            ) && (exists|k: int|
                0 <= k < pts@.len() && lands_on_cell(
                    (#[trigger] pts@[k]).1,
                    old(self).width_spec(),
                    old(self).height_spec(),
                )) {
                let ci = choose|ci: int|
                    0 <= ci < self.depth_buffer_spec().depth_seq().len()
                        && #[trigger] self.depth_buffer_spec().depth_seq()[ci] < SCALE;
                assert(0 <= ci < cb@.len() && cb@[ci] != old(self).background_char_spec());
                assert(has_visible_cell(cb@, old(self).background_char_spec()));
            }
        }
        (cb, colb)
    }

    /// Sets the viewport size (terminal dimensions).
    ///
    /// Fails exactly when either dimension is zero; the renderer is
    /// then unchanged but for its buffers.
    pub fn set_viewport(&mut self, width: u32, height: u32) -> (r: Result<()>)
        requires
            old(self).wf(),
            width * height <= u32::MAX,
        ensures
            r is Ok <==> (width > 0 && height > 0),
            r is Ok ==> {
                &&& final(self).wf()
                &&& final(self).width_spec() == width && final(self).height_spec() == height
                &&& final(self).character_set_spec() == old(self).character_set_spec()
                &&& final(self).background_char_spec() == old(self).background_char_spec()
                &&& final(self).use_color_spec() == old(self).use_color_spec()
                &&& final(self).axes_config_spec() == old(self).axes_config_spec()
            },
            r is Err ==> *final(self) == *old(self) && (r matches Err(
                AltostratusError::InvalidParameter(_),
            )),
    {
        if width == 0 || height == 0 {
            return Err(
                AltostratusError::InvalidParameter(
                    "Terminal dimensions must be positive".to_owned(),
                ),
            );
        }
        let r1 = self.projector.set_viewport(width, height);
        let r2 = self.depth_buffer.resize(width, height);
        proof {
            assert(r1 is Ok && r2 is Ok);
        }
        self.width = width;
        self.height = height;
        Ok(())
    }

    /// Gets the current viewport size.
    pub fn viewport_size(&self) -> (r: (u32, u32))
        ensures
            r.0 == self.width_spec() && r.1 == self.height_spec(),
    {
        (self.width, self.height)
    }

    /// Flattens character and color grids to a newline-joined string,
    /// wrapping visible glyphs in color escapes when color is on.
    pub fn buffer_to_string(&self, cb: &Vec<char>, colb: &Vec<Color>) -> (s: String)
        requires
            self.wf(),
            cb@.len() == self.width_spec() * self.height_spec(),
            colb@.len() == self.width_spec() * self.height_spec(),
        ensures
            s@ == grid_string(
                cb@,
                colb@,
                self.width_spec() as int,
                self.height_spec() as int,
                self.use_color_spec(),
                self.background_char_spec(),
            ),
    {
        let ghost w = self.width_spec() as int;
        let ghost h = self.height_spec() as int;
        let mut s: String = String::new();
        let mut y: u32 = 0;
        while y < self.height
            invariant
                y <= self.height_spec(),
                self.wf(),
                cb@.len() == self.width_spec() * self.height_spec(),
                colb@.len() == self.width_spec() * self.height_spec(),
                w == self.width_spec() as int,
                h == self.height_spec() as int,
                s@ == grid_prefix_string(
                    cb@,
                    colb@,
                    w,
                    y as int,
                    self.use_color_spec(),
                    self.background_char_spec(),
                ),
            decreases self.height_spec() - y,
        {
            if y > 0 {
                s.push('\n');
            }
            let mut x: u32 = 0;
            while x < self.width
                invariant
                    x <= self.width_spec(),
                    y < self.height_spec(),
                    self.wf(),
                    cb@.len() == self.width_spec() * self.height_spec(),
                    colb@.len() == self.width_spec() * self.height_spec(),
                    w == self.width_spec() as int,
                    h == self.height_spec() as int,
                    s@ == (if y == 0 {
                        Seq::<char>::empty()
                    } else {
                        grid_prefix_string(
                            cb@,
                            colb@,
                            w,
                            y as int,
                            self.use_color_spec(),
                            self.background_char_spec(),
                        ) + seq!['\n']
                    }) + row_prefix_string(
                        cb@,
                        colb@,
                        w,
                        y as int,
                        x as int,
                        self.use_color_spec(),
                        self.background_char_spec(),
                    ),
                decreases self.width_spec() - x,
            {
                proof {
                    crate::renderer::lemma_cell_in_grid(x as int, y as int, w, h);
                }
                let idx: usize = ((y as u64) * (self.width as u64) + (x as u64)) as usize;
                let ch: char = cb[idx];
                let col: Color = colb[idx];
                if self.use_color && ch != self.background_char {
                    let prefix = ansi_prefix(col);
                    s.append(prefix.as_str());
                    s.push(ch);
                    s.append("\u{1b}[0m");
                } else {
                    s.push(ch);
                }
                proof {
                    assert(s@ == (if y == 0 {
                        Seq::<char>::empty()
                    } else {
                        grid_prefix_string(
                            cb@,
                            colb@,
                            w,
                            y as int,
                            self.use_color_spec(),
                            self.background_char_spec(),
                        ) + seq!['\n']
                    }) + row_prefix_string(
                        cb@,
                        colb@,
                        w,
                        y as int,
                        x + 1,
                        self.use_color_spec(),
                        self.background_char_spec(),
                    ));
                }
                x = x + 1;
            }
            proof {
                if y == 0 {
                    assert(s@ == grid_prefix_string(
                        cb@,
                        colb@,
                        w,
                        1int,
                        self.use_color_spec(),
                        self.background_char_spec(),
                    ));
                }
            }
            y = y + 1;
        }
        s
    }
}

/// The visual aspect ratio of a character viewport: terminal cells are
/// about twice as tall as wide, so it is `2 * width / height`, in
/// ticks.
pub open spec fn visual_aspect_spec(width: int, height: int) -> int {
    trunc_div(2 * width * (SCALE as int), height)
}

/// The camera as the character renderer adjusts it: its aspect ratio
/// replaced by the viewport's visual aspect.
pub open spec fn ascii_adjusted_camera(c: Camera, w: int, h: int) -> Camera {
    Camera { aspect_ratio: visual_aspect_spec(w, h) as i64, ..c }
}

/// Some point of the sequence projects onto a grid cell nearer than the
/// far plane.
pub open spec fn some_point_lands(
    m: crate::mat4::Mat4,
    pts: Seq<Point3D>,
    w: u32,
    h: u32,
) -> bool {
    exists|j: int|
        0 <= j < pts.len() && ((#[trigger] crate::renderer::project_spec(m, pts[j].position, w, h))
            matches Some(sp) && lands_on_cell(sp, w, h))
}

/// What projection guarantees of the finished character grid: through
/// some view-projection matrix of the adjusted camera, a point landing
/// on a cell leaves a non-background character, provided the set's
/// visible glyphs differ from the background.
pub open spec fn character_output_ok(
    cb: Seq<char>,
    cam: Camera,
    tan_half_fov: int,
    pts: Seq<Point3D>,
    w: u32,
    h: u32,
    cs: CharacterSet,
    background: char,
) -> bool {
    exists|vp: crate::mat4::Mat4|
        {
            &&& #[trigger] crate::camera::is_view_projection_of(
                ascii_adjusted_camera(cam, w as int, h as int),
                tan_half_fov,
                vp,
            )
            &&& (charset_distinct(charset_seq(&cs), background) && some_point_lands(vp, pts, w, h)
                ==> has_visible_cell(cb, background))
        }
}

/// Computes the visual aspect ratio of a character viewport.
pub fn visual_aspect_ratio(width: u32, height: u32) -> (r: i64)
    requires
        1 <= width,
        1 <= height,
        height <= 10_000 * width,
    ensures
        r as int == visual_aspect_spec(width as int, height as int),
        100 <= r,
{
    proof {
        assert(2 * (width as int) * (SCALE as int) <= 2 * 4_294_967_295 * 1_000_000int && 0 <= 2 * (
        width as int) * (SCALE as int)) by (nonlinear_arith)
            requires
                1 <= width <= u32::MAX,
        ;
    }
    let num: u64 = 2 * (width as u64) * (SCALE as u64);
    let q: u64 = num / (height as u64);
    proof {
        assert(q as int == 2 * (width as int) * (SCALE as int) / (height as int));
        assert(q >= 200) by {
            assert(2 * (width as int) * (SCALE as int) >= (height as int) * 200)
                by (nonlinear_arith)
                requires
                    height <= 10_000 * width,
                    width >= 1,
            ;
            vstd::arithmetic::div_mod::lemma_div_is_ordered(
                (height as int) * 200,
                2 * (width as int) * (SCALE as int),
                height as int,
            );
            vstd::arithmetic::div_mod::lemma_div_multiples_vanish(200int, height as int);
        }
        assert(q <= i64::MAX) by {
            vstd::arithmetic::div_mod::lemma_div_is_ordered(
                2 * (width as int) * (SCALE as int),
                8_589_934_590_000_000int,
                height as int,
            );
            vstd::arithmetic::div_mod::lemma_div_is_ordered_by_denominator(
                8_589_934_590_000_000int,
                1int,
                height as int,
            );
        }
    }
    q as i64
}

/// Fresh grids of one background character and one white cell color per
/// pixel.
fn blank_grids(width: u32, height: u32, background: char) -> (r: (Vec<char>, Vec<Color>))
    requires
        width * height <= u32::MAX,
    ensures
        r.0@.len() == width * height,
        r.1@.len() == width * height,
        forall|i: int| 0 <= i < r.0@.len() ==> r.0@[i] == background,
        forall|i: int| 0 <= i < r.1@.len() ==> r.1@[i] == (Color { r: 255u8, g: 255u8, b: 255u8 }),
{
    let n: usize = (width * height) as usize;
    let mut cb: Vec<char> = Vec::new();
    let mut colb: Vec<Color> = Vec::new();
    let mut i: usize = 0;
    while i < n
        invariant
            i <= n,
            cb@.len() == i,
            colb@.len() == i,
            forall|j: int| 0 <= j < i ==> cb@[j] == background,
            forall|j: int| 0 <= j < i ==> colb@[j] == (Color { r: 255u8, g: 255u8, b: 255u8 }),
        decreases n - i,
    {
        cb.push(background);
        colb.push(Color::white());
        i = i + 1;
    }
    (cb, colb)
}

/// The ANSI escape string that selects a color.
fn ansi_prefix(color: Color) -> (s: String)
    ensures
        s@ == color_prefix_spec(color),
{
    let idx: u64 = ansi_index(color) as u64;
    let mut s: String = "\u{1b}[38;5;".to_owned();
    push_decimal(&mut s, idx);
    s.push('m');
    proof {
        assert(s@ == color_prefix_spec(color));
    }
    s
}

/// The xterm 256-color palette index of a color.
pub fn ansi_index(color: Color) -> (r: u8)
    ensures
        r as int == ansi_index_spec(color),
        16 <= r <= 231,
{
    let rq: u32 = (color.r as u32) * 5 / 255;
    let gq: u32 = (color.g as u32) * 5 / 255;
    let bq: u32 = (color.b as u32) * 5 / 255;
    (16 + 36 * rq + 6 * gq + bq) as u8
}

/// A rounded in-viewport coordinate lands on a pixel row or column of
/// the viewport, or just past its edge.
proof fn lemma_round_in_range(x: int, limit: int)
    requires
        0 <= x,
        x < limit * SCALE,
        1 <= limit <= 4_294_967_295,
    ensures
        0 <= crate::fixed::round_units(x) <= limit,
        abs(x) <= i64::MAX - SCALE,
{
    assert(limit * SCALE <= 4_294_967_295 * 1_000_000int) by (nonlinear_arith)
        requires
            limit <= 4_294_967_295,
    ;
    assert(x + SCALE / 2 < limit * SCALE + SCALE);
    assert(limit * SCALE + SCALE == (SCALE as int) * (limit + 1)) by (nonlinear_arith);
    vstd::arithmetic::div_mod::lemma_div_is_ordered(
        x + SCALE / 2,
        (SCALE as int) * (limit + 1) - 1,
        SCALE as int,
    );
    assert(((SCALE as int) * (limit + 1) - 1) / (SCALE as int) == limit) by {
        vstd::arithmetic::div_mod::lemma_fundamental_div_mod_converse(
            (SCALE as int) * (limit + 1) - 1,
            SCALE as int,
            limit,
            (SCALE as int) - 1,
        );
        assert((SCALE as int) * (limit + 1) - 1 == limit * (SCALE as int) + ((SCALE as int) - 1))
            by (nonlinear_arith);
    }
    vstd::arithmetic::div_mod::lemma_div_is_ordered(0, x + SCALE / 2, SCALE as int);
}

/// A visible depth maps to a glyph above the background slot.
proof fn lemma_visible_char(chars: Seq<char>, depth: int, background: char)
    requires
        charset_distinct(chars, background),
    ensures
        depth_char_spec(chars, depth) != background,
{
    let clamped = if depth < 0 {
        0
    } else if depth > 950_000 {
        950_000
    } else {
        depth
    };
    let visible = chars.len() - 1;
    let idx = (950_000 - clamped) * (visible - 1) / 950_000;
    assert((950_000 - clamped) * (visible - 1) >= 0) by (nonlinear_arith)
        requires
            0 <= clamped <= 950_000,
            visible >= 1,
    ;
    vstd::arithmetic::div_mod::lemma_div_is_ordered(
        0,
        (950_000 - clamped) * (visible - 1),
        950_000int,
    );
}


/// Lines joined by newlines, with no trailing newline.
pub open spec fn joined(lines: Seq<Seq<char>>) -> Seq<char>
    decreases lines.len(),
{
    if lines.len() == 0 {
        Seq::empty()
    } else if lines.len() == 1 {
        lines[0]
    } else {
        joined(lines.drop_last()) + seq!['\n'] + lines.last()
    }
}

/// No line holds a newline.
pub open spec fn newline_free(lines: Seq<Seq<char>>) -> bool {
    forall|i: int| 0 <= i < lines.len() ==> !(#[trigger] lines[i]).contains('\n')
}

/// The character `c`, `n` times.
pub open spec fn repeat_char(c: char, n: int) -> Seq<char>
    decreases n,
{
    if n <= 0 {
        Seq::empty()
    } else {
        repeat_char(c, n - 1).push(c)
    }
}

/// Splits a string at newlines.
pub fn split_lines(content: &String) -> (lines: Vec<String>)
    ensures
        lines@.len() >= 1,
        joined(lines@.map_values(|l: String| l@)) == content@,
        newline_free(lines@.map_values(|l: String| l@)),
{
    let ghost whole = content@;
    let chars: Vec<char> = crate::command::chars_of(content);
    let n: usize = chars.len();
    let mut lines: Vec<String> = Vec::new();
    let mut cur: String = String::new();
    let mut i: usize = 0;
    while i < n
        invariant
            i <= n,
            n == chars@.len(),
            chars@ == whole,
            joined(lines@.map_values(|l: String| l@).push(cur@)) == whole.subrange(0, i as int),
            newline_free(lines@.map_values(|l: String| l@).push(cur@)),
        decreases n - i,
    {
        let ghost pre_lines = lines@.map_values(|l: String| l@);
        let ghost pre_cur = cur@;
        let c: char = chars[i];
        if c == '\n' {
            lines.push(cur);
            cur = String::new();
            proof {
                let now = lines@.map_values(|l: String| l@);
                assert(now =~= pre_lines.push(pre_cur));
                assert(now.push(cur@).drop_last() =~= now);
                assert(now.push(cur@).last() =~= cur@);
                assert(joined(now.push(cur@)) =~= whole.subrange(0, i + 1)) by {
                    assert(joined(now) == joined(pre_lines.push(pre_cur)));
                    assert(whole.subrange(0, i + 1) =~= whole.subrange(0, i as int).push('\n'));
                }
                assert(newline_free(now.push(cur@)));
            }
        } else {
            cur.push(c);
            proof {
                let now = lines@.map_values(|l: String| l@);
                assert(now =~= pre_lines);
                if now.len() == 0 {
                    assert(joined(now.push(cur@)) == cur@);
                    assert(joined(pre_lines.push(pre_cur)) == pre_cur);
                } else {
                    assert(now.push(cur@).drop_last() =~= pre_lines.push(pre_cur).drop_last());
                    assert(joined(now.push(cur@)) == joined(now.push(cur@).drop_last()) + seq![
                        '\n',
                    ] + cur@);
                    assert(joined(pre_lines.push(pre_cur)) == joined(
                        pre_lines.push(pre_cur).drop_last(),
                    ) + seq!['\n'] + pre_cur);
                }
                assert(joined(now.push(cur@)) =~= whole.subrange(0, i + 1)) by {
                    assert(whole.subrange(0, i + 1) =~= whole.subrange(0, i as int).push(c));
                }
                assert(!cur@.contains('\n')) by {
                    assert(!pre_cur.contains('\n'));
                    assert forall|idx: int| 0 <= idx < cur@.len() implies cur@[idx] != '\n' by {
                        if idx < pre_cur.len() {
                            assert(pre_cur[idx] != '\n') by {
                                if pre_cur[idx] == '\n' {
                                    assert(pre_cur.contains('\n'));
                                }
                            }
                        }
                    }
                    if cur@.contains('\n') {
                        let idx = choose|idx: int| 0 <= idx < cur@.len() && cur@[idx] == '\n';
                    }
                }
                assert forall|ii: int|
                    0 <= ii < now.push(cur@).len() implies !(#[trigger] now.push(cur@)[
                ii]).contains('\n') by {
                    if ii < now.len() {
                        assert(now.push(cur@)[ii] == pre_lines.push(pre_cur)[ii]);
                        assert(!pre_lines.push(pre_cur)[ii].contains('\n'));
                    } else {
                        assert(now.push(cur@)[ii] == cur@);
                    }
                }
                assert(newline_free(now.push(cur@)));
            }
        }
        i = i + 1;
    }
    let ghost pre_lines = lines@.map_values(|l: String| l@);
    let ghost pre_cur = cur@;
    lines.push(cur);
    proof {
        assert(whole.subrange(0, n as int) =~= whole);
        assert(lines@.map_values(|l: String| l@) =~= pre_lines.push(pre_cur));
    }
    lines
}

/// `text` is a base character render: some grid of the renderer's
/// dimensions flattened, blank for an empty scene and carrying a
/// visible glyph when a point lands on a cell.
pub open spec fn base_render_text(
    text: Seq<char>,
    pts: Seq<Point3D>,
    cam: Camera,
    tan_half_fov: int,
    adv: AdvancedAsciiRenderer,
) -> bool {
    exists|cb: Seq<char>, colb: Seq<Color>|
        {
            &&& cb.len() == adv.base_spec().width_spec() * adv.base_spec().height_spec()
            &&& colb.len() == adv.base_spec().width_spec() * adv.base_spec().height_spec()
            &&& text == #[trigger] grid_string(
                cb,
                colb,
                adv.base_spec().width_spec() as int,
                adv.base_spec().height_spec() as int,
                adv.base_spec().use_color_spec(),
                adv.base_spec().background_char_spec(),
            )
            &&& (adv.base_spec().axes_config_spec() is None && pts.len() == 0) ==> cb == Seq::new(
                (adv.base_spec().width_spec() * adv.base_spec().height_spec()) as nat,
                |i: int| adv.base_spec().background_char_spec(),
            )
            &&& pts.len() > 0 ==> character_output_ok(
                cb,
                cam,
                tan_half_fov,
                pts,
                adv.base_spec().width_spec(),
                adv.base_spec().height_spec(),
                adv.base_spec().character_set_spec(),
                adv.base_spec().background_char_spec(),
            )
        }
}

/// The rows of a bordered block: each content line wrapped in border
/// characters and padded with spaces to the longest line, each row
/// ending in a newline.
pub open spec fn bordered_rows(lines: Seq<Seq<char>>, m: int, b: char) -> Seq<char>
    decreases lines.len(),
{
    if lines.len() == 0 {
        Seq::empty()
    } else {
        bordered_rows(lines.drop_last(), m, b) + seq![b] + lines.last() + repeat_char(
            ' ',
            m - lines.last().len(),
        ) + seq![b] + seq!['\n']
    }
}

/// `out` is `content` wrapped in a border frame: some newline-free
/// split of the content, padded to its longest line and wrapped row by
/// row between a top and a bottom border row.
pub open spec fn bordered_text(content: Seq<char>, out: Seq<char>, b: char) -> bool {
    exists|lines: Seq<Seq<char>>, m: int|
        #![trigger joined(lines), bordered_rows(lines, m, b)]
        {
            &&& joined(lines) == content
            &&& newline_free(lines)
            &&& 0 <= m
            &&& (forall|i: int|
                0 <= i < lines.len() ==> (#[trigger] lines[i]).len() <= m || m == usize::MAX - 2)
            &&& out == repeat_char(b, m + 2) + seq!['\n'] + bordered_rows(lines, m, b)
                + repeat_char(b, m + 2)
        }
}

/// The camera info header: position, target, field of view (degree
/// ticks), distance to target (ticks), viewport size, and a separator
/// row.
pub open spec fn info_header_spec(c: Camera, dist: int, w: u32, h: u32) -> Seq<char> {
    "Camera: pos=("@ + crate::text::signed_dec_digits(c.position.x as int) + ", "@
        + crate::text::signed_dec_digits(c.position.y as int) + ", "@
        + crate::text::signed_dec_digits(c.position.z as int) + "), target=("@
        + crate::text::signed_dec_digits(c.target.x as int) + ", "@
        + crate::text::signed_dec_digits(c.target.y as int) + ", "@
        + crate::text::signed_dec_digits(c.target.z as int) + ")\n"@ + "FOV: "@
        + crate::text::signed_dec_digits(crate::camera::rad_to_deg(c.fov as int)) + ", Distance: "@
        + crate::text::signed_dec_digits(dist) + "\n"@ + "Viewport: "@ + dec_digits(w as nat)
        + "x"@ + dec_digits(h as nat) + "\n"@ + repeat_char('=', 40) + seq!['\n']
}

/// `out` is `content` prefixed with the camera info header for some
/// floor distance to the target.
pub open spec fn info_applied(content: Seq<char>, out: Seq<char>, c: Camera, w: u32, h: u32) -> bool {
    exists|dist: int|
        #[trigger] crate::fixed::is_sqrt(
            crate::vec3::len_sq(crate::camera::offset_of(c)),
            dist,
        ) && out == info_header_spec(c, dist, w, h) + content
}

/// Extended ASCII renderer with additional formatting options.
#[derive(Debug)]
pub struct AdvancedAsciiRenderer {
    base: AsciiRenderer,
    show_border: bool,
    border_char: char,
    show_info: bool,
}

impl AdvancedAsciiRenderer {
    /// The owned base renderer.
    pub closed spec fn base_spec(&self) -> AsciiRenderer {
        self.base
    }

    /// Whether a border frame is drawn.
    pub closed spec fn show_border_spec(&self) -> bool {
        self.show_border
    }

    /// The border character.
    pub closed spec fn border_char_spec(&self) -> char {
        self.border_char
    }

    /// Whether the camera info header is shown.
    pub closed spec fn show_info_spec(&self) -> bool {
        self.show_info
    }

    /// Creates a new advanced ASCII renderer without border or info.
    ///
    /// Fails exactly when either dimension is zero.
    pub fn new(width: u32, height: u32) -> (r: Result<Self>)
        requires
            width * height <= u32::MAX,
        ensures
            r is Ok <==> (width > 0 && height > 0),
            r matches Ok(a) ==> {
                &&& a.base_spec().wf()
                &&& a.base_spec().width_spec() == width && a.base_spec().height_spec() == height
                &&& !a.show_border_spec() && !a.show_info_spec()
                &&& a.border_char_spec() == '#'
            },
    {
        let base = match AsciiRenderer::new(width, height) {
            Ok(b) => b,
            Err(e) => {
                return Err(e);
            },
        };
        Ok(Self { base, show_border: false, border_char: '#', show_info: false })
    }

    /// Enables or disables the border frame and sets its character.
    pub fn set_border(&mut self, show: bool, border_char: char)
        ensures
            final(self).show_border_spec() == show,
            final(self).border_char_spec() == border_char,
            final(self).base_spec() == old(self).base_spec(),
            final(self).show_info_spec() == old(self).show_info_spec(),
    {
        self.show_border = show;
        self.border_char = border_char;
    }

    /// Enables or disables the camera info header.
    pub fn set_info(&mut self, show: bool)
        ensures
            final(self).show_info_spec() == show,
            final(self).base_spec() == old(self).base_spec(),
            final(self).show_border_spec() == old(self).show_border_spec(),
            final(self).border_char_spec() == old(self).border_char_spec(),
    {
        self.show_info = show;
    }

    /// Gets a mutable reference to the base renderer.
    pub fn base_mut(&mut self) -> (r: &mut AsciiRenderer)
        ensures
            *r == old(self).base_spec(),
            final(self).base_spec() == *final(r),
            final(self).show_border_spec() == old(self).show_border_spec(),
            final(self).border_char_spec() == old(self).border_char_spec(),
            final(self).show_info_spec() == old(self).show_info_spec(),
    {
        &mut self.base
    }

    /// Gets a reference to the base renderer.
    pub fn base(&self) -> (r: &AsciiRenderer)
        ensures
            r == self.base_spec(),
    {
        &self.base
    }

    /// Wraps rendered content in a border frame: a top and bottom row
    /// of border characters, each line padded to the longest line and
    /// wrapped between border characters.
    pub fn add_border(&self, content: &String) -> (r: String)
        ensures
            !self.show_border_spec() ==> r@ == content@,
            self.show_border_spec() ==> bordered_text(content@, r@, self.border_char_spec()),
    {
        if !self.show_border {
            let mut copy = String::new();
            copy.append(content.as_str());
            proof {
                assert(copy@ =~= content@);
            }
            return copy;
        }
        let b: char = self.border_char;
        let lines: Vec<String> = split_lines(content);
        let ghost lseq = lines@.map_values(|l: String| l@);
        let mut maxw: usize = 0;
        let mut i: usize = 0;
        while i < lines.len()
            invariant
                i <= lines@.len(),
                lseq == lines@.map_values(|l: String| l@),
                maxw <= usize::MAX - 2,
                forall|j: int|
                    0 <= j < i ==> (#[trigger] lseq[j]).len() <= maxw || maxw == usize::MAX - 2,
            decreases lines@.len() - i,
        {
            let len: usize = lines[i].as_str().unicode_len();
            if len > maxw {
                if len > usize::MAX - 2 {
                    maxw = usize::MAX - 2;
                } else {
                    maxw = len;
                }
            }
            i = i + 1;
        }
        let ghost top = repeat_char(b, maxw as int + 2);
        proof {
            lemma_repeat_len(b, maxw as int + 2);
        }
        let mut out: String = String::new();
        push_repeat(&mut out, b, maxw + 2);
        out.push('\n');
        let ghost head = out@;
        proof {
            assert(head =~= top + seq!['\n']);
        }
        let mut k: usize = 0;
        while k < lines.len()
            invariant
                k <= lines@.len(),
                lseq == lines@.map_values(|l: String| l@),
                maxw <= usize::MAX - 2,
                forall|j: int|
                    0 <= j < lseq.len() ==> (#[trigger] lseq[j]).len() <= maxw || maxw
                        == usize::MAX - 2,
                top == repeat_char(b, maxw as int + 2),
                head == top + seq!['\n'],
                out@ == head + bordered_rows(lseq.subrange(0, k as int), maxw as int, b),
            decreases lines@.len() - k,
        {
            let ghost pre = out@;
            out.push(b);
            let line: &String = &lines[k];
            out.append(line.as_str());
            let len: usize = line.as_str().unicode_len();
            let pad: usize = if len <= maxw {
                maxw - len
            } else {
                0
            };
            push_repeat(&mut out, ' ', pad);
            out.push(b);
            out.push('\n');
            proof {
                assert(lseq.subrange(0, k + 1).drop_last() =~= lseq.subrange(0, k as int));
                assert(lseq.subrange(0, k + 1).last() == lseq[k as int]);
                assert(repeat_char(' ', pad as int) == repeat_char(
                    ' ',
                    maxw as int - lseq[k as int].len(),
                )) by {
                    if len > maxw {
                        lemma_repeat_len(' ', 0int);
                    }
                }
                assert(out@ =~= head + bordered_rows(lseq.subrange(0, k + 1), maxw as int, b));
            }
            k = k + 1;
        }
        push_repeat(&mut out, b, maxw + 2);
        proof {
            assert(lseq.subrange(0, lseq.len() as int) =~= lseq);
            assert(out@ =~= repeat_char(b, maxw as int + 2) + seq!['\n'] + bordered_rows(
                lseq,
                maxw as int,
                b,
            ) + repeat_char(b, maxw as int + 2));
            assert(joined(lseq) == content@);
            assert(bordered_text(content@, out@, b));
        }
        out
    }

    /// Prefixes rendered content with a camera info header: position,
    /// target, field of view, distance to target, and viewport size,
    /// all in ticks, followed by a separator row.
    pub fn add_info(&self, content: &String, camera: &Camera) -> (r: String)
        requires
            crate::vec3::in_range(camera.position, 1_000_000_000int),
            crate::vec3::in_range(camera.target, 1_000_000_000int),
            abs(camera.fov as int) <= 1_000_000_000,
        ensures
            !self.show_info_spec() ==> r@ == content@,
            self.show_info_spec() ==> info_applied(
                content@,
                r@,
                *camera,
                self.base_spec().width_spec(),
                self.base_spec().height_spec(),
            ),
    {
        if !self.show_info {
            let mut copy = String::new();
            copy.append(content.as_str());
            proof {
                assert(copy@ =~= content@);
            }
            return copy;
        }
        let mut out: String = String::new();
        out.append("Camera: pos=(");
        crate::text::push_signed_decimal(&mut out, camera.position.x);
        out.append(", ");
        crate::text::push_signed_decimal(&mut out, camera.position.y);
        out.append(", ");
        crate::text::push_signed_decimal(&mut out, camera.position.z);
        out.append("), target=(");
        crate::text::push_signed_decimal(&mut out, camera.target.x);
        out.append(", ");
        crate::text::push_signed_decimal(&mut out, camera.target.y);
        out.append(", ");
        crate::text::push_signed_decimal(&mut out, camera.target.z);
        out.append(")\n");
        out.append("FOV: ");
        let deg: i64 = camera.fov_degrees();
        crate::text::push_signed_decimal(&mut out, deg);
        out.append(", Distance: ");
        let dist: i64 = camera.distance_to_target();
        crate::text::push_signed_decimal(&mut out, dist);
        out.append("\n");
        out.append("Viewport: ");
        let (w, h) = self.base.viewport_size();
        crate::text::push_decimal(&mut out, w as u64);
        out.append("x");
        crate::text::push_decimal(&mut out, h as u64);
        out.append("\n");
        push_repeat(&mut out, '=', 40);
        out.push('\n');
        let ghost header = out@;
        out.append(content.as_str());
        proof {
            assert(header =~= info_header_spec(
                *camera,
                dist as int,
                self.base_spec().width_spec(),
                self.base_spec().height_spec(),
            ));
            assert(out@ == header + content@);
            assert(info_applied(
                content@,
                out@,
                *camera,
                self.base_spec().width_spec(),
                self.base_spec().height_spec(),
            ));
        }
        out
    }

    /// Renders through the base renderer, then applies the border and
    /// the info header as enabled.
    pub fn render(&mut self, points: &PointCloud, camera: &Camera, tan_half_fov: i64) -> (r: Result<
        String,
    >)
        requires
            old(self).base_spec().wf(),
            points.wf(),
            points.points_seq().len() <= 100_000_000,
            camera.wf(),
            abs(camera.fov as int) <= 1_000_000_000,
            10_000 <= tan_half_fov <= 1_000_000_000,
            crate::vec3::len_sq(crate::camera::offset_of(*camera)) >= 1,
            old(self).base_spec().height_spec() <= 10_000 * old(self).base_spec().width_spec(),
        ensures
            final(self).base_spec().wf(),
            final(self).show_border_spec() == old(self).show_border_spec(),
            final(self).border_char_spec() == old(self).border_char_spec(),
            final(self).show_info_spec() == old(self).show_info_spec(),
            r is Ok,
            r matches Ok(out) ==> (!old(self).show_border_spec() && !old(self).show_info_spec())
                ==> exists|cb: Seq<char>, colb: Seq<Color>|
                {
                    &&& cb.len() == old(self).base_spec().width_spec() * old(
                        self,
                    ).base_spec().height_spec()
                    &&& colb.len() == old(self).base_spec().width_spec() * old(
                        self,
                    ).base_spec().height_spec()
                    &&& out@ == #[trigger] grid_string(
                        cb,
                        colb,
                        old(self).base_spec().width_spec() as int,
                        old(self).base_spec().height_spec() as int,
                        old(self).base_spec().use_color_spec(),
                        old(self).base_spec().background_char_spec(),
                    )
                },
    {
        let ghost at_entry = *self;
        let base_output: String = match self.base.render(points, camera, tan_half_fov) {
            Ok(s) => s,
            Err(e) => {
                return Err(e);
            },
        };
        proof {
            assert(base_render_text(
                base_output@,
                points.points_seq(),
                *camera,
                tan_half_fov as int,
                at_entry,
            ));
        }
        let with_border: String = self.add_border(&base_output);
        let with_info: String = self.add_info(&with_border, camera);
        Ok(with_info)
    }

    /// Sets the viewport size of the base renderer.
    pub fn set_viewport(&mut self, width: u32, height: u32) -> (r: Result<()>)
        requires
            old(self).base_spec().wf(),
            width * height <= u32::MAX,
        ensures
            r is Ok <==> (width > 0 && height > 0),
            r is Ok ==> final(self).base_spec().wf() && final(self).base_spec().width_spec()
                == width && final(self).base_spec().height_spec() == height,
    {
        self.base.set_viewport(width, height)
    }

    /// Gets the current viewport size.
    pub fn viewport_size(&self) -> (r: (u32, u32))
        ensures
            r.0 == self.base_spec().width_spec() && r.1 == self.base_spec().height_spec(),
    {
        self.base.viewport_size()
    }
}

/// Appends `n` copies of a character.
fn push_repeat(s: &mut String, c: char, n: usize)
    ensures
        final(s)@ == old(s)@ + repeat_char(c, n as int),
{
    let mut i: usize = 0;
    while i < n
        invariant
            i <= n,
            s@ == old(s)@ + repeat_char(c, i as int),
        decreases n - i,
    {
        s.push(c);
        i = i + 1;
    }
}

/// Repetition has the expected length.
proof fn lemma_repeat_len(c: char, n: int)
    requires
        n >= 0,
    ensures
        repeat_char(c, n).len() == n,
    decreases n,
{
    if n > 0 {
        lemma_repeat_len(c, n - 1);
    }
}

} // verus!
