//! What the overlay shows and when it is redrawn: its size, its lines of text, its pixels.
use vstd::prelude::*;
use crate::color::Rgb;
use crate::shutdown::{pairs_view, waited, has_waited};

verus! {

/// A mode of an output: its size in pixels, and whether it is the current one.
#[derive(Debug, Clone, Copy)]
pub struct OutputMode {
    pub dimensions: (i32, i32),
    pub current: bool,
}

/// What the compositor tells of an output: its logical size where known, its scale factor,
/// and its modes.
#[derive(Debug, Clone)]
pub struct OutputInfo {
    pub logical_size: Option<(i32, i32)>,
    pub scale_factor: i32,
    pub modes: Vec<OutputMode>,
}

/// The size of the first current mode, where it is positive.
pub open spec fn mode_size(modes: Seq<OutputMode>) -> Option<(int, int)>
    decreases modes.len(),
{
    if modes.len() == 0 {
        None
    } else if modes[0].current {
        let (w, h) = modes[0].dimensions;
        if w > 0 && h > 0 {
            Some((w as int, h as int))
        } else {
            None
        }
    } else {
        mode_size(modes.drop_first())
    }
}

/// The scale factor, at least 1.
pub open spec fn effective_scale(s: i32) -> int {
    if s < 1 {
        1
    } else {
        s as int
    }
}

/// The size of an output in pixels: its logical size times its scale where that size is
/// positive, else the size of its current mode.
pub open spec fn info_size(info: OutputInfo) -> Option<(int, int)> {
    match info.logical_size {
        Some((w, h)) if w > 0 && h > 0 => Some((w * effective_scale(info.scale_factor), h * effective_scale(info.scale_factor))),
        _ => mode_size(info.modes@),
    }
}

/// The size of the first output that has one.
pub open spec fn outputs_size(outputs: Seq<Option<OutputInfo>>) -> Option<(int, int)>
    decreases outputs.len(),
{
    if outputs.len() == 0 {
        None
    } else {
        match outputs[0] {
            Some(info) => match info_size(info) {
                Some(sz) => Some(sz),
                None => outputs_size(outputs.drop_first()),
            },
            None => outputs_size(outputs.drop_first()),
        }
    }
}

/// A size in pixels as unsigned numbers.
pub open spec fn size_u32(o: Option<(int, int)>) -> Option<(u32, u32)> {
    match o {
        Some((w, h)) => Some((w as u32, h as u32)),
        None => None,
    }
}

/// The size of the first current mode that is positive, as `info_size` reads modes.
fn current_mode_size(modes: &Vec<OutputMode>) -> (r: Option<(u32, u32)>)
    ensures
        match mode_size(modes@) {
            Some((w, h)) => r matches Some((rw, rh)) && rw == w && rh == h,
            None => r is None,
        },
{
    let mut i: usize = 0;
    assert(modes@.skip(0) =~= modes@);
    while i < modes.len()
        invariant
            i <= modes.len(),
            mode_size(modes@) == mode_size(modes@.skip(i as int)),
        decreases modes.len() - i,
    {
        proof {
            assert(modes@.skip(i as int)[0] == modes@[i as int]);
            assert(modes@.skip(i as int).drop_first() =~= modes@.skip(i + 1));
        }
        if modes[i].current {
            let (w, h) = modes[i].dimensions;
            if w > 0 && h > 0 {
                return Some((w as u32, h as u32));
            } else {
                return None;
            }
        }
        i = i + 1;
    }
    assert(modes@.skip(i as int).len() == 0);
    None
}

/// The size of the first output that has one, in 64-bit numbers, which always hold it.
fn output_size_wide(outputs: &Vec<Option<OutputInfo>>) -> (r: Option<(u64, u64)>)
    ensures
        match outputs_size(outputs@) {
            Some((w, h)) => r matches Some((rw, rh)) && rw == w && rh == h,
            None => r is None,
        },
{
    let mut i: usize = 0;
    assert(outputs@.skip(0) =~= outputs@);
    while i < outputs.len()
        invariant
            i <= outputs.len(),
            outputs_size(outputs@) == outputs_size(outputs@.skip(i as int)),
        decreases outputs.len() - i,
    {
        proof {
            assert(outputs@.skip(i as int)[0] == outputs@[i as int]);
            assert(outputs@.skip(i as int).drop_first() =~= outputs@.skip(i + 1));
        }
        if let Some(info) = &outputs[i] {
            if let Some((w, h)) = info.logical_size {
                let scale: u64 = if info.scale_factor < 1 {
                    1
                } else {
                    info.scale_factor as u64
                };
                if w > 0 && h > 0 {
                    assert((w as u64) * scale <= 0x7fff_ffff * 0x7fff_ffff) by (nonlinear_arith)
                        requires
                            0 < w <= 0x7fff_ffff,
                            1 <= scale <= 0x7fff_ffff,
                    ;
                    assert((h as u64) * scale <= 0x7fff_ffff * 0x7fff_ffff) by (nonlinear_arith)
                        requires
                            0 < h <= 0x7fff_ffff,
                            1 <= scale <= 0x7fff_ffff,
                    ;
                    return Some((w as u64 * scale, h as u64 * scale));
                }
            }
            match current_mode_size(&info.modes) {
                Some((w, h)) => {
                    return Some((w as u64, h as u64));
                },
                None => {},
            }
        }
        i = i + 1;
    }
    assert(outputs@.skip(i as int).len() == 0);
    None
}

/// The size of the overlay's output in pixels, from the first output whose size is known.
pub fn output_size(outputs: &Vec<Option<OutputInfo>>) -> (r: Option<(u32, u32)>)
    requires
        output_size_fits_spec(outputs@),
    ensures
        r == size_u32(outputs_size(outputs@)),
{
    match output_size_wide(outputs) {
        Some((w, h)) => Some((w as u32, h as u32)),
        None => None,
    }
}

/// The output's size fits in 32 bits, as the multiplication by the scale factor needs.
pub open spec fn output_size_fits_spec(outputs: Seq<Option<OutputInfo>>) -> bool {
    match outputs_size(outputs) {
        Some((w, h)) => w <= u32::MAX && h <= u32::MAX,
        None => true,
    }
}

/// Whether the output's size fits in 32 bits.
pub fn output_size_fits(outputs: &Vec<Option<OutputInfo>>) -> (r: bool)
    ensures
        r == output_size_fits_spec(outputs@),
{
    match output_size_wide(outputs) {
        Some((w, h)) => w <= 0xffff_ffff && h <= 0xffff_ffff,
        None => true,
    }
}

/// The size to draw at: the configured size where both sides exceed one pixel, else the
/// output's size, else the configured size with each side at least one.
pub open spec fn draw_size_of(width: u32, height: u32, output: Option<(u32, u32)>) -> (u32, u32) {
    if width > 1 && height > 1 {
        (width, height)
    } else {
        match output {
            Some(sz) => sz,
            None => (if width < 1 { 1 } else { width }, if height < 1 { 1 } else { height }),
        }
    }
}

/// The parts of the overlay's state that decide when and at what size it is drawn, and what
/// it lists.
pub struct UiModel {
    pub width: u32,
    pub height: u32,
    pub first_configure: bool,
    pub apps: Vec<(String, String)>,
    pub count: usize,
    pub last_poll: Option<u64>,
}

/// Whether two lists of applications hold the same (class, title) pairs in the same order.
pub fn same_apps(a: &Vec<(String, String)>, b: &Vec<(String, String)>) -> (r: bool)
    ensures
        r == (pairs_view(a@) == pairs_view(b@)),
{
    if a.len() != b.len() {
        assert(pairs_view(a@).len() != pairs_view(b@).len());
        return false;
    }
    let mut i: usize = 0;
    while i < a.len()
        invariant
            a.len() == b.len(),
            i <= a.len(),
            forall|j: int| 0 <= j < i ==> pairs_view(a@)[j] == pairs_view(b@)[j],
        decreases a.len() - i,
    {
        if !(a[i].0 == b[i].0 && a[i].1 == b[i].1) {
            assert(pairs_view(a@)[i as int] != pairs_view(b@)[i as int]);
            return false;
        }
        i = i + 1;
    }
    assert(pairs_view(a@) =~= pairs_view(b@));
    true
}

impl UiModel {
    /// The state before the first configure event: a one-pixel surface listing `apps`, not
    /// polled yet, so that the first tick polls.
    pub fn new(apps: Vec<(String, String)>) -> (m: Self)
        ensures
            m.width == 1,
            m.height == 1,
            m.first_configure,
            m.apps == apps,
            m.count == apps@.len(),
            m.last_poll is None,
    {
        let count = apps.len();
        UiModel { width: 1, height: 1, first_configure: true, apps, count, last_poll: None }
    }

    /// A configure event: the compositor's size where both sides are positive, else the
    /// output's size where known. The first configure asks for the first drawing.
    pub fn configure(&mut self, new_size: (u32, u32), output: Option<(u32, u32)>) -> (draw: bool)
        ensures
            (final(self).width, final(self).height) == if new_size.0 > 0 && new_size.1 > 0 {
                new_size
            } else {
                match output {
                    Some(sz) => sz,
                    None => (old(self).width, old(self).height),
                }
            },
            draw == old(self).first_configure,
            !final(self).first_configure,
            final(self).apps == old(self).apps,
            final(self).count == old(self).count,
            final(self).last_poll == old(self).last_poll,
    {
        if new_size.0 > 0 && new_size.1 > 0 {
            self.width = new_size.0;
            self.height = new_size.1;
        } else if let Some((w, h)) = output {
            self.width = w;
            self.height = h;
        }
        let draw = self.first_configure;
        self.first_configure = false;
        draw
    }

    /// Settle the size to draw at, and keep it.
    pub fn draw_size(&mut self, output: Option<(u32, u32)>) -> (sz: (u32, u32))
        ensures
            sz == draw_size_of(old(self).width, old(self).height, output),
            (final(self).width, final(self).height) == sz,
            final(self).first_configure == old(self).first_configure,
            final(self).apps == old(self).apps,
            final(self).count == old(self).count,
            final(self).last_poll == old(self).last_poll,
    {
        let sz = if self.width > 1 && self.height > 1 {
            (self.width, self.height)
        } else {
            match output {
                Some(o) => o,
                None => (if self.width < 1 { 1 } else { self.width }, if self.height < 1 { 1 } else { self.height }),
            }
        };
        self.width = sz.0;
        self.height = sz.1;
        sz
    }

    /// Whether a tick at `now` polls: nothing has been polled yet, or the poll interval has
    /// passed since the last poll. A poll makes `now` the last one.
    pub fn poll(&mut self, now: u64, interval_ms: u64) -> (due: bool)
        ensures
            due == match old(self).last_poll {
                None => true,
                Some(t) => waited(now, t, interval_ms),
            },
            final(self).last_poll == if due { Some(now) } else { old(self).last_poll },
            final(self).width == old(self).width,
            final(self).height == old(self).height,
            final(self).first_configure == old(self).first_configure,
            final(self).apps == old(self).apps,
            final(self).count == old(self).count,
    {
        let due = match self.last_poll {
            None => true,
            Some(t) => has_waited(now, t, interval_ms),
        };
        if due {
            self.last_poll = Some(now);
        }
        due
    }

    /// Take in the applications that the last poll found; a different list replaces the
    /// listed one and asks for a redraw.
    pub fn update_apps(&mut self, apps: Vec<(String, String)>) -> (redraw: bool)
        ensures
            redraw == (pairs_view(apps@) != pairs_view(old(self).apps@)),
            redraw ==> final(self).apps == apps && final(self).count == apps@.len(),
            !redraw ==> final(self).apps == old(self).apps && final(self).count == old(self).count,
            final(self).width == old(self).width,
            final(self).height == old(self).height,
            final(self).first_configure == old(self).first_configure,
            final(self).last_poll == old(self).last_poll,
    {
        if same_apps(&apps, &self.apps) {
            false
        } else {
            self.count = apps.len();
            self.apps = apps;
            true
        }
    }
}

/// A key the overlay reacts to.
#[derive(Debug, Clone, Copy, PartialEq, Eq, Structural)]
pub enum Key {
    Escape,
    F,
    Other,
}

/// What a key press does.
#[derive(Debug, Clone, Copy, PartialEq, Eq, Structural)]
pub enum KeyAction {
    /// Leave without ending the session.
    Cancel,
    /// End the session now, killing what is left.
    ForceFinish,
    /// Nothing.
    Ignore,
}

/// `Escape` cancels, `F` forces the end, every other key is ignored.
pub fn key_action(key: Key) -> (a: KeyAction)
    ensures
        a == match key {
            Key::Escape => KeyAction::Cancel,
            Key::F => KeyAction::ForceFinish,
            Key::Other => KeyAction::Ignore,
        },
{
    match key {
        Key::Escape => KeyAction::Cancel,
        Key::F => KeyAction::ForceFinish,
        Key::Other => KeyAction::Ignore,
    }
}

/// The four bytes that a solid fill writes to each pixel.
pub open spec fn fill_byte(color: Rgb, k: int) -> u8 {
    if k == 0 {
        color.r
    } else if k == 1 {
        color.g
    } else if k == 2 {
        color.b
    } else {
        0xff
    }
}

/// Fill every whole four-byte pixel of `canvas` with `color`, as the bytes red, green, blue
/// and an opaque 0xff; bytes after the last whole pixel stay as they were.
pub fn fill_solid(canvas: &mut [u8], color: Rgb)
    ensures
        final(canvas)@.len() == old(canvas)@.len(),
        forall|i: int| 0 <= i < old(canvas)@.len() / 4 * 4 ==> #[trigger] final(canvas)@[i] == fill_byte(color, i % 4),
        forall|i: int| old(canvas)@.len() / 4 * 4 <= i < old(canvas)@.len() ==> #[trigger] final(canvas)@[i] == old(canvas)@[i],
{
    let n = canvas.len() / 4 * 4;
    let mut i: usize = 0;
    while i < n
        invariant
            n == old(canvas)@.len() / 4 * 4,
            canvas@.len() == old(canvas)@.len(),
            i <= n,
            i % 4 == 0,
            forall|j: int| 0 <= j < i ==> #[trigger] canvas@[j] == fill_byte(color, j % 4),
            forall|j: int| i <= j < canvas@.len() ==> #[trigger] canvas@[j] == old(canvas)@[j],
        decreases n - i,
    {
        canvas[i] = color.r;
        canvas[i + 1] = color.g;
        canvas[i + 2] = color.b;
        canvas[i + 3] = 0xff;
        i = i + 4;
    }
}

/// The byte that a pixel copy writes: red and blue swapped, green and alpha kept.
pub open spec fn swizzled(rgba: Seq<u8>, i: int) -> u8 {
    let k = i % 4;
    let base = i - k;
    if k == 0 {
        rgba[base + 2]
    } else if k == 1 {
        rgba[base + 1]
    } else if k == 2 {
        rgba[base]
    } else {
        rgba[base + 3]
    }
}

/// Copy the pixels of an RGBA image into `canvas` with red and blue swapped, pixel by pixel,
/// for as many whole pixels as both hold; the rest of `canvas` stays as it was.
pub fn copy_swizzled(canvas: &mut [u8], rgba: &[u8])
    ensures
        final(canvas)@.len() == old(canvas)@.len(),
        forall|i: int| 0 <= i < copied_len(old(canvas)@.len(), rgba@.len()) ==> #[trigger] final(canvas)@[i] == swizzled(rgba@, i),
        forall|i: int| copied_len(old(canvas)@.len(), rgba@.len()) <= i < old(canvas)@.len() ==> #[trigger] final(canvas)@[i] == old(canvas)@[i],
{
    let a = canvas.len() / 4;
    let b = rgba.len() / 4;
    let n = if a < b { a } else { b } * 4;
    let mut i: usize = 0;
    while i < n
        invariant
            n == copied_len(old(canvas)@.len(), rgba@.len()),
            n <= canvas@.len(),
            n <= rgba@.len(),
            canvas@.len() == old(canvas)@.len(),
            i <= n,
            i % 4 == 0,
            forall|j: int| 0 <= j < i ==> #[trigger] canvas@[j] == swizzled(rgba@, j),
            forall|j: int| i <= j < canvas@.len() ==> #[trigger] canvas@[j] == old(canvas)@[j],
        decreases n - i,
    {
        canvas[i] = rgba[i + 2];
        canvas[i + 1] = rgba[i + 1];
        canvas[i + 2] = rgba[i];
        canvas[i + 3] = rgba[i + 3];
        i = i + 4;
    }
}

/// How many bytes a pixel copy writes: four for each pixel that both buffers hold whole.
pub open spec fn copied_len(canvas_len: nat, rgba_len: nat) -> nat {
    let a = canvas_len / 4;
    let b = rgba_len / 4;
    (if a < b { a } else { b }) * 4
}

/// The character of a decimal digit.
pub open spec fn digit_char(d: nat) -> char {
    (0x30 + d) as char
}

/// `n` written in decimal, without leading zeros.
pub open spec fn decimal_chars(n: nat) -> Seq<char>
    decreases n,
{
    if n < 10 {
        seq![digit_char(n)]
    } else {
        decimal_chars(n / 10).push(digit_char(n % 10))
    }
}

/// Append `n` written in decimal to `s`.
fn push_decimal(s: &mut String, n: usize)
    ensures
        final(s)@ == old(s)@ + decimal_chars(n as nat),
    decreases n,
{
    if n >= 10 {
        push_decimal(s, n / 10);
    }
    let d = n % 10;
    let digits = "0123456789";
    proof {
        reveal_strlit("0123456789");
        assert(digits@[d as int] == digit_char(d as nat));
    }
    let digit = digits.substring_char(d, d + 1);
    assert(digit@ =~= seq![digit_char(d as nat)]);
    s.append(digit);
    proof {
        if n >= 10 {
            assert(decimal_chars(n as nat) == decimal_chars((n / 10) as nat).push(digit_char(d as nat)));
        }
        assert(s@ =~= old(s)@ + decimal_chars(n as nat));
    }
}

/// `n` written in decimal.
fn decimal_text(n: usize) -> (s: String)
    ensures
        s@ == decimal_chars(n as nat),
{
    let mut s = String::new();
    push_decimal(&mut s, n);
    assert(s@ =~= decimal_chars(n as nat));
    s
}

/// "app" for one application, "apps" for any other number.
pub open spec fn app_noun(count: nat) -> Seq<char> {
    if count == 1 {
        "app"@
    } else {
        "apps"@
    }
}

/// The heading under the title: how many applications would be closed in a dry run, or how
/// many are being waited for.
pub open spec fn header_of(count: nat, dry_run: bool) -> Seq<char> {
    if dry_run {
        "Dry run \u{2014} "@ + decimal_chars(count) + " "@ + app_noun(count) + " would be closed:"@
    } else {
        "Waiting for "@ + decimal_chars(count) + " "@ + app_noun(count) + " to close:"@
    }
}

/// The line of one application: its class and title joined by a dash, or whichever of the
/// two is not empty.
pub open spec fn app_line_of(class: Seq<char>, title: Seq<char>) -> Seq<char> {
    if title.len() == 0 {
        class
    } else if class.len() == 0 {
        title
    } else {
        class + " \u{2014} "@ + title
    }
}

/// The keyboard hint at the bottom of the overlay.
pub open spec fn hint_of(dry_run: bool) -> Seq<char> {
    if dry_run {
        "ESC \u{2014} quit"@
    } else {
        "ESC \u{2014} cancel    F \u{2014} force quit"@
    }
}

/// What a line of the overlay is, which sets its size and color.
#[derive(Debug, Clone, Copy, PartialEq, Eq, Structural)]
pub enum LineRole {
    Title,
    Heading,
    App,
}

/// One line of the overlay's text.
#[derive(Debug, Clone)]
pub struct OverlayLine {
    pub text: String,
    pub role: LineRole,
}

/// The heading under the title.
pub fn header_text(count: usize, dry_run: bool) -> (s: String)
    ensures
        s@ == header_of(count as nat, dry_run),
{
    let n = decimal_text(count);
    let noun = if count == 1 {
        "app"
    } else {
        "apps"
    };
    let mut s = if dry_run {
        "Dry run \u{2014} ".to_owned()
    } else {
        "Waiting for ".to_owned()
    };
    s.append(n.as_str());
    s.append(" ");
    s.append(noun);
    if dry_run {
        s.append(" would be closed:");
    } else {
        s.append(" to close:");
    }
    s
}

/// The line of one application.
pub fn app_line(class: &String, title: &String) -> (s: String)
    ensures
        s@ == app_line_of(class@, title@),
{
    if title.as_str().is_empty() {
        class.clone()
    } else if class.as_str().is_empty() {
        title.clone()
    } else {
        let mut s = class.clone();
        s.append(" \u{2014} ");
        s.append(title.as_str());
        s
    }
}

/// The keyboard hint at the bottom of the overlay.
pub fn hint_text(dry_run: bool) -> (s: String)
    ensures
        s@ == hint_of(dry_run),
{
    if dry_run {
        "ESC \u{2014} quit".to_owned()
    } else {
        "ESC \u{2014} cancel    F \u{2014} force quit".to_owned()
    }
}

/// The lines of the overlay, top to bottom: the title, the heading, then one line per
/// application.
pub fn overlay_lines(title: &String, apps: &Vec<(String, String)>, count: usize, dry_run: bool) -> (r: Vec<OverlayLine>)
    ensures
        r@.len() == apps@.len() + 2,
        r@[0].text@ == title@ && r@[0].role == LineRole::Title,
        r@[1].text@ == header_of(count as nat, dry_run) && r@[1].role == LineRole::Heading,
        forall|k: int| 0 <= k < apps@.len() ==> (#[trigger] r@[k + 2]).text@ == app_line_of(apps@[k].0@, apps@[k].1@)
            && r@[k + 2].role == LineRole::App,
{
    let mut r: Vec<OverlayLine> = Vec::new();
    r.push(OverlayLine { text: title.clone(), role: LineRole::Title });
    r.push(OverlayLine { text: header_text(count, dry_run), role: LineRole::Heading });
    let mut i: usize = 0;
    while i < apps.len()
        invariant
            i <= apps.len(),
            r@.len() == i + 2,
            r@[0].text@ == title@ && r@[0].role == LineRole::Title,
            r@[1].text@ == header_of(count as nat, dry_run) && r@[1].role == LineRole::Heading,
            forall|k: int| 0 <= k < i ==> (#[trigger] r@[k + 2]).text@ == app_line_of(apps@[k].0@, apps@[k].1@)
                && r@[k + 2].role == LineRole::App,
        decreases apps.len() - i,
    {
        let line = app_line(&apps[i].0, &apps[i].1);
        r.push(OverlayLine { text: line, role: LineRole::App });
        i = i + 1;
    }
    r
}

} // verus!
