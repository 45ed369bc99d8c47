//! A slider over a few named steps.

use vstd::arithmetic::div_mod::*;
use vstd::prelude::*;
use vstd::string::*;
use crate::span;
use crate::span::{add_span, display_width, Area, Color, Span, Style};

verus! {

/// A step of a slider.
#[derive(Debug, Clone, Copy)]
pub struct Step {
    pub label: &'static str,
    pub color: Color,
    pub desc: &'static str,
}

/// What became of a key.
#[derive(Debug, Clone, Copy, PartialEq, Eq, Structural)]
pub enum StepSliderAction {
    Consumed,
    Changed(usize),
}

/// A key that was pressed, as far as a slider tells keys apart.
#[derive(Debug, Clone, Copy, PartialEq, Eq, Structural)]
pub enum KeyCode {
    Left,
    Right,
    Char(char),
    Other,
}

/// A slider.
#[derive(Debug)]
pub struct StepSlider {
    pub selected: usize,
    pub visible: bool,
}

/// The step that a character selects: the digit `1` the first one, and so on. What counts of a
/// character is its last byte, and those below `1` select the first step.
pub open spec fn shortcut(c: char) -> int {
    let byte = (c as int) % 256;
    if byte >= 49 {
        byte - 49
    } else {
        0
    }
}

/// The step that a key leads to, where it leads to one.
pub open spec fn led_to(selected: usize, key: KeyCode, step_count: usize) -> Option<int> {
    match key {
        KeyCode::Left | KeyCode::Char('h') => if selected > 0 {
            Some(selected - 1)
        } else {
            None
        },
        KeyCode::Right | KeyCode::Char('l') => if selected < step_count - 1 {
            Some(selected + 1)
        } else {
            None
        },
        KeyCode::Char(c) => if shortcut(c) < step_count {
            Some(shortcut(c))
        } else {
            None
        },
        KeyCode::Other => None,
    }
}

/// What a key does: the step that is selected after it, and what became of the key.
pub open spec fn after_key(selected: usize, key: KeyCode, step_count: usize) -> (
    usize,
    StepSliderAction,
) {
    match led_to(selected, key, step_count) {
        Some(to) => (to as usize, StepSliderAction::Changed(to as usize)),
        None => (selected, StepSliderAction::Consumed),
    }
}

impl StepSlider {
    /// A hidden slider at its first step.
    pub fn new() -> (slider: Self)
        ensures
            slider == (StepSlider { selected: 0, visible: false }),
    {
        StepSlider { selected: 0, visible: false }
    }

    /// A hidden slider at the step `index`.
    pub fn with_selected(index: usize) -> (slider: Self)
        ensures
            slider == (StepSlider { selected: index, visible: false }),
    {
        StepSlider { selected: index, visible: false }
    }

    /// The step that is selected.
    pub fn selected(&self) -> (index: usize)
        ensures
            index == self.selected,
    {
        self.selected
    }

    /// Selects the step `index`.
    pub fn set_selected(&mut self, index: usize)
        ensures
            *final(self) == (StepSlider { selected: index, ..*old(self) }),
    {
        self.selected = index;
    }

    /// Whether the slider is shown.
    pub fn is_visible(&self) -> (visible: bool)
        ensures
            visible == self.visible,
    {
        self.visible
    }

    /// Shows or hides the slider.
    pub fn set_visible(&mut self, visible: bool)
        ensures
            *final(self) == (StepSlider { visible, ..*old(self) }),
    {
        self.visible = visible;
    }

    /// Shows the slider.
    pub fn show(&mut self)
        ensures
            *final(self) == (StepSlider { visible: true, ..*old(self) }),
    {
        self.visible = true;
    }

    /// Hides the slider.
    pub fn conceal(&mut self)
        ensures
            *final(self) == (StepSlider { visible: false, ..*old(self) }),
    {
        self.visible = false;
    }

    /// Goes to the step before, where there is one.
    pub fn prev(&mut self) -> (action: StepSliderAction)
        ensures
            old(self).selected > 0 ==> *final(self) == (StepSlider {
                selected: (old(self).selected - 1) as usize,
                ..*old(self)
            }) && action == StepSliderAction::Changed(final(self).selected),
            old(self).selected == 0 ==> *final(self) == *old(self) && action
                == StepSliderAction::Consumed,
    {
        if self.selected > 0 {
            self.selected -= 1;
            StepSliderAction::Changed(self.selected)
        } else {
            StepSliderAction::Consumed
        }
    }

    /// Goes to the next step, up to the step `max`.
    pub fn next_bounded(&mut self, max: usize) -> (action: StepSliderAction)
        ensures
            old(self).selected < max ==> *final(self) == (StepSlider {
                selected: (old(self).selected + 1) as usize,
                ..*old(self)
            }) && action == StepSliderAction::Changed(final(self).selected),
            old(self).selected >= max ==> *final(self) == *old(self) && action
                == StepSliderAction::Consumed,
    {
        if self.selected < max {
            self.selected += 1;
            StepSliderAction::Changed(self.selected)
        } else {
            StepSliderAction::Consumed
        }
    }

    /// Handles a key. The arrows, and `h` and `l`, go to the step before and to the next one;
    /// other characters select a step by its number.
    pub fn handle_key(&mut self, key: KeyCode, step_count: usize) -> (action: StepSliderAction)
        requires
            key is Right || key == KeyCode::Char('l') ==> step_count > 0,
        ensures
            final(self).visible == old(self).visible,
            (final(self).selected, action) == after_key(old(self).selected, key, step_count),
    {
        match key {
            KeyCode::Left | KeyCode::Char('h') => self.prev(),
            KeyCode::Right | KeyCode::Char('l') => self.next_bounded(step_count - 1),
            KeyCode::Char(c) => {
                let byte: u32 = (c as u32) % 256;
                let idx: usize = byte.saturating_sub(49) as usize;
                if idx < step_count {
                    self.selected = idx;
                    StepSliderAction::Changed(idx)
                } else {
                    StepSliderAction::Consumed
                }
            },
            KeyCode::Other => StepSliderAction::Consumed,
        }
    }

    /// How many rows a slider takes.
    pub fn height() -> (rows: u16)
        ensures
            rows == 2,
    {
        2
    }
}

impl Default for StepSlider {
    fn default() -> (slider: Self)
        ensures
            slider == (StepSlider { selected: 0, visible: false }),
    {
        StepSlider::new()
    }
}

/// No key takes a slider beyond its last step.
pub proof fn law_keys_stay_on_steps(selected: usize, key: KeyCode, step_count: usize)
    requires
        selected < step_count,
    ensures
        after_key(selected, key, step_count).0 < step_count,
{
}

/// To go to the next step and back leads where one was, and so does to go back and on.
pub proof fn law_left_undoes_right(selected: usize, step_count: usize)
    ensures
        0 <= selected < step_count - 1 ==> after_key(
            after_key(selected, KeyCode::Right, step_count).0,
            KeyCode::Left,
            step_count,
        ).0 == selected,
        0 < selected < step_count ==> after_key(
            after_key(selected, KeyCode::Left, step_count).0,
            KeyCode::Right,
            step_count,
        ).0 == selected,
{
}

/// A key is told to have changed the step exactly where it selected one, and then which.
pub proof fn law_change_tells_step(selected: usize, key: KeyCode, step_count: usize)
    ensures
        match after_key(selected, key, step_count) {
            (to, StepSliderAction::Changed(index)) => index == to,
            (to, StepSliderAction::Consumed) => to == selected,
        },
{
}

/// The arrows, and `h` and `l`, go one step to the left and one to the right, and stay where there
/// is none. A digit from one on selects the step of its number, where there is one, wherever the
/// slider was; else, as with other keys, nothing changes.
pub proof fn law_keys_lead_to_steps(selected: usize, digit: char, step_count: usize)
    requires
        selected < step_count,
        '1' <= digit <= '9',
    ensures
        after_key(selected, KeyCode::Left, step_count).0 == (if selected == 0 {
            0
        } else {
            selected - 1
        }),
        after_key(selected, KeyCode::Right, step_count).0 == (if selected + 1 == step_count {
            selected as int
        } else {
            selected + 1
        }),
        after_key(selected, KeyCode::Char('h'), step_count) == after_key(
            selected,
            KeyCode::Left,
            step_count,
        ),
        after_key(selected, KeyCode::Char('l'), step_count) == after_key(
            selected,
            KeyCode::Right,
            step_count,
        ),
        (digit as int) - ('1' as int) < step_count ==> after_key(
            selected,
            KeyCode::Char(digit),
            step_count,
        ).0 == (digit as int) - ('1' as int) && after_key(selected, KeyCode::Char(digit), step_count).1
            is Changed,
        (digit as int) - ('1' as int) >= step_count ==> after_key(
            selected,
            KeyCode::Char(digit),
            step_count,
        ) == (selected, StepSliderAction::Consumed),
        after_key(selected, KeyCode::Other, step_count) == (selected, StepSliderAction::Consumed),
        after_key(selected, KeyCode::Left, step_count).1 is Changed <==> selected > 0,
        after_key(selected, KeyCode::Right, step_count).1 is Changed <==> selected + 1 < step_count,
{
}

/// Of any other character the last byte counts alone: those from the digit one on select by their
/// distance from it, and those below the first step.
pub proof fn law_characters_count_by_their_last_byte(
    selected: usize,
    c: char,
    d: char,
    step_count: usize,
)
    requires
        step_count > 0,
        c != 'h' && c != 'l' && d != 'h' && d != 'l',
    ensures
        (c as int) % 256 == (d as int) % 256 ==> after_key(selected, KeyCode::Char(c), step_count)
            == after_key(selected, KeyCode::Char(d), step_count),
        (c as int) % 256 < '1' as int ==> after_key(selected, KeyCode::Char(c), step_count) == (
            0usize,
            StepSliderAction::Changed(0),
        ),
        '1' as int <= (c as int) % 256 < '1' as int + step_count ==> after_key(
            selected,
            KeyCode::Char(c),
            step_count,
        ).0 == (c as int) % 256 - ('1' as int) && after_key(
            selected,
            KeyCode::Char(c),
            step_count,
        ).1 is Changed,
        (c as int) % 256 >= '1' as int + step_count ==> after_key(
            selected,
            KeyCode::Char(c),
            step_count,
        ) == (selected, StepSliderAction::Consumed),
{
}

/// The three levels of effort.
pub fn effort_steps() -> (steps: Vec<Step>)
    ensures
        steps@.len() == 3,
        steps@[0].label@ == "low"@,
        steps@[0].color == Color::Green,
        steps@[0].desc@
            == "Faster responses, lighter reasoning \u{2013} great for simpler tasks"@,
        steps@[1].label@ == "medium"@,
        steps@[1].color == Color::Yellow,
        steps@[1].desc@ == "Balanced speed and reasoning quality for most tasks"@,
        steps@[2].label@ == "high"@,
        steps@[2].color == Color::Red,
        steps@[2].desc@
            == "Deepest reasoning for complex problems \u{2013} slower but strongest"@,
{
    let mut steps: Vec<Step> = Vec::new();
    steps.push(
        Step {
            label: "low",
            color: Color::Green,
            desc: "Faster responses, lighter reasoning \u{2013} great for simpler tasks",
        },
    );
    steps.push(
        Step {
            label: "medium",
            color: Color::Yellow,
            desc: "Balanced speed and reasoning quality for most tasks",
        },
    );
    steps.push(
        Step {
            label: "high",
            color: Color::Red,
            desc: "Deepest reasoning for complex problems \u{2013} slower but strongest",
        },
    );
    steps
}

/// The distance between two neighbouring markers of `count` on a track, in whole columns: that
/// between the first and the last one, shared among the gaps.
pub open spec fn marker_step(track: usize, count: usize) -> int {
    (track - 1) / (count - 1)
}

/// The place of the marker `i` of `count` on a track: the first at its beginning, the last at its
/// end, the others at equal distances from the first on. A single marker is in the middle.
pub open spec fn marker(track: usize, count: usize, i: int) -> int {
    if count == 1 {
        track as int / 2
    } else if i == 0 {
        0
    } else if i == count - 1 {
        track - 1
    } else {
        i * marker_step(track, count)
    }
}

/// The places of all markers.
pub open spec fn markers(track: usize, count: usize) -> Seq<usize> {
    Seq::new(count as nat, |i: int| marker(track, count, i) as usize)
}

proof fn lemma_inner_marker(room: int, gaps: int, i: int)
    requires
        0 < i < gaps,
        room >= 1,
    ensures
        room / gaps >= 0,
        0 <= i * (room / gaps) <= room - room / gaps,
        i * (room / gaps) < room,
{
    let step = room / gaps;
    assert(step >= 0 && gaps * step <= room) by (nonlinear_arith)
        requires
            step == room / gaps,
            gaps > 0,
            room >= 0,
    ;
    assert(0 <= i * step <= gaps * step - step) by (nonlinear_arith)
        requires
            0 < i < gaps,
            step >= 0,
    ;
    assert(step == 0 ==> i * step == 0) by (nonlinear_arith);
}

proof fn lemma_marker_on_track(track: usize, count: usize, i: int)
    requires
        0 <= i < count,
        count > 1 ==> track >= 2,
    ensures
        0 <= marker(track, count, i) <= track,
        track > 0 ==> marker(track, count, i) < track,
{
    if count > 1 && 0 < i < count - 1 {
        lemma_inner_marker(track - 1, count - 1, i);
    }
}

/// The markers of several steps stand on the track in the order of the steps, the first at its
/// beginning and the last at its end. No two of them meet where the track has a column for each
/// step.
pub proof fn law_markers_in_order(track: usize, count: usize, i: int, j: int)
    requires
        count > 1,
        track >= 2,
        0 <= i < j < count,
    ensures
        marker(track, count, 0) == 0,
        marker(track, count, count - 1) == track - 1,
        marker(track, count, i) <= marker(track, count, j) < track,
        track >= count ==> marker(track, count, i) < marker(track, count, j),
{
    let gaps = count - 1;
    let room = track - 1;
    let step = marker_step(track, count);
    lemma_marker_on_track(track, count, j);
    assert(step >= 0 && (room >= gaps ==> step >= 1)) by (nonlinear_arith)
        requires
            step == room / gaps,
            gaps >= 1,
            room >= 0,
    ;
    if j < count - 1 {
        assert(i * step <= j * step && (step >= 1 ==> i * step < j * step)) by (nonlinear_arith)
            requires
                i < j,
                step >= 0,
        ;
        assert(0 * step == 0) by (nonlinear_arith);
    } else if i > 0 {
        lemma_inner_marker(room, gaps, i);
    }
}

/// The markers of several steps are evenly spaced: every gap but the last is one step wide, and the
/// last one is wider by no more than what cannot be shared among the gaps.
pub proof fn law_markers_evenly_spaced(track: usize, count: usize, i: int)
    requires
        count > 1,
        track >= 2,
        0 <= i < count - 1,
    ensures
        ({
            let gap = marker(track, count, i + 1) - marker(track, count, i);
            let rest = (track - 1) % (count - 1);
            &&& gap == marker_step(track, count) + (if i + 1 < count - 1 {
                0
            } else {
                rest
            })
            &&& gap == (track - 1) / (count - 1) + (if i + 1 < count - 1 {
                0
            } else {
                rest
            })
        }),
{
    let gaps = count - 1;
    let room = track - 1;
    let step = marker_step(track, count);
    lemma_fundamental_div_mod(room, gaps);
    assert((i + 1) * step == i * step + step) by (nonlinear_arith);
    assert(0 * step == 0) by (nonlinear_arith);
    if i + 1 == gaps {
        assert(gaps * step == i * step + step);
    }
}

impl StepSlider {
    /// The places of the markers on a track.
    pub fn compute_positions(track_width: usize, count: usize) -> (positions: Vec<usize>)
        requires
            count > 0,
            count > 1 ==> track_width >= 2,
        ensures
            positions@ == markers(track_width, count),
    {
        let mut positions: Vec<usize> = Vec::new();
        if count == 1 {
            positions.push(track_width / 2);
            assert(positions@ =~= markers(track_width, count));
            return positions;
        }
        let gaps: usize = count - 1;
        let step: usize = (track_width - 1) / gaps;
        let mut i: usize = 0;
        while i < count
            invariant
                i <= count,
                count > 1,
                track_width >= 2,
                gaps == count - 1,
                step == marker_step(track_width, count),
                positions@ == markers(track_width, count).take(i as int),
            decreases count - i,
        {
            proof {
                lemma_marker_on_track(track_width, count, i as int);
            }
            if i == 0 {
                positions.push(0);
            } else if i == count - 1 {
                positions.push(track_width - 1);
            } else {
                positions.push(i * step);
            }
            assert(positions@ =~= markers(track_width, count).take(i + 1));
            i += 1;
        }
        assert(positions@ =~= markers(track_width, count));
        positions
    }
}

/// The first marker at the place `at`.
pub open spec fn marker_at(positions: Seq<usize>, at: int) -> Option<int>
    decreases positions.len(),
{
    if positions.len() == 0 {
        None
    } else {
        match marker_at(positions.drop_last(), at) {
            Some(i) => Some(i),
            None => if positions.last() == at {
                Some(positions.len() - 1)
            } else {
                None
            },
        }
    }
}

proof fn lemma_marker_at_prefix(positions: Seq<usize>, n: int, at: int)
    requires
        0 <= n <= positions.len(),
        marker_at(positions.take(n), at) is Some,
    ensures
        marker_at(positions, at) == marker_at(positions.take(n), at),
    decreases positions.len(),
{
    if n < positions.len() {
        assert(positions.drop_last().take(n) =~= positions.take(n));
        lemma_marker_at_prefix(positions.drop_last(), n, at);
    } else {
        assert(positions.take(n) =~= positions);
    }
}

fn find_marker(positions: &Vec<usize>, at: usize) -> (found: Option<usize>)
    ensures
        match found {
            Some(i) => marker_at(positions@, at as int) == Some(i as int),
            None => marker_at(positions@, at as int) is None,
        },
{
    let mut i: usize = 0;
    while i < positions.len()
        invariant
            i <= positions.len(),
            marker_at(positions@.take(i as int), at as int) is None,
        decreases positions.len() - i,
    {
        assert(positions@.take(i + 1).drop_last() =~= positions@.take(i as int));
        if positions[i] == at {
            proof {
                lemma_marker_at_prefix(positions@, i + 1, at as int);
            }
            return Some(i);
        }
        i += 1;
    }
    assert(positions@.take(i as int) =~= positions@);
    None
}

proof fn lemma_marker_at(positions: Seq<usize>, at: int)
    ensures
        match marker_at(positions, at) {
            Some(i) => 0 <= i < positions.len() && positions[i] == at,
            None => forall|i: int| 0 <= i < positions.len() ==> #[trigger] positions[i] != at,
        },
    decreases positions.len(),
{
    if positions.len() > 0 {
        let front = positions.drop_last();
        lemma_marker_at(front, at);
        assert forall|i: int|
            marker_at(positions, at) is None && 0 <= i < positions.len() implies #[trigger] positions[i]
            != at by {
            if i < front.len() {
                assert(front[i] == positions[i]);
            }
        }
    }
}

/// A column of the track: a marker, which is filled where its step is selected; between markers a
/// piece of the track, which has the step's colour up to the selected one.
pub open spec fn track_cell(positions: Seq<usize>, selected: usize, color: Color, at: int)
    -> span::SpanView {
    match marker_at(positions, at) {
        Some(i) => span::span(
            if i == selected {
                "◉"@
            } else {
                "○"@
            },
            Style::Tinted(color),
        ),
        None => if positions.first() <= at <= positions.last() {
            span::span(
                "━"@,
                Style::Tinted(
                    if at < positions[selected as int] {
                        color
                    } else {
                        Color::Gray
                    },
                ),
            )
        } else {
            span::span(" "@, Style::Plain)
        },
    }
}

/// On a track with a column for each step, the marker of the selected step is the one that is
/// filled.
pub proof fn law_selected_marker_is_filled(
    track: usize,
    count: usize,
    selected: usize,
    color: Color,
    i: int,
)
    requires
        selected < count,
        0 <= i < count,
        track >= count,
    ensures
        track_cell(markers(track, count), selected, color, marker(track, count, i)) == span::span(
            if i == selected {
                "◉"@
            } else {
                "○"@
            },
            Style::Tinted(color),
        ),
{
    let positions = markers(track, count);
    let at = marker(track, count, i);
    lemma_marker_on_track(track, count, i);
    lemma_marker_at(positions, at);
    assert(positions[i] == at);
    let k = marker_at(positions, at)->0;
    lemma_marker_on_track(track, count, k);
    if k < i {
        law_markers_in_order(track, count, k, i);
    } else if i < k {
        law_markers_in_order(track, count, i, k);
    }
}

/// The first row of a slider: its label, and its track between two arrows. An arrow has the
/// colour of the step where there is a step in its direction.
pub open spec fn track_row(label: Seq<char>, track: usize, count: usize, selected: usize, color: Color)
    -> Seq<span::SpanView> {
    let positions = markers(track, count);
    seq![
        span::span(label, Style::Tinted(Color::Foreground)),
        span::span("  "@, Style::Plain),
        span::span(
            "◀"@,
            Style::Tinted(
                if selected > 0 {
                    color
                } else {
                    Color::Foreground
                },
            ),
        ),
        span::span(" "@, Style::Plain),
    ] + Seq::new(track as nat, |at: int| track_cell(positions, selected, color, at)) + seq![
        span::span(" "@, Style::Plain),
        span::span(
            "▶"@,
            Style::Tinted(
                if selected < count - 1 {
                    color
                } else {
                    Color::Foreground
                },
            ),
        ),
    ]
}

/// Between the first marker and the last one the track is drawn without a gap, in the step's colour
/// before the selected marker and gray behind it. Outside it is blank. A marker has the step's
/// colour, and its circle is filled where the first marker at its place is the selected one.
pub proof fn law_track_reaches_the_selected_step(
    positions: Seq<usize>,
    selected: usize,
    color: Color,
    at: int,
)
    requires
        selected < positions.len(),
        forall|i: int, j: int|
            0 <= i < j < positions.len() ==> #[trigger] positions[i] <= #[trigger] positions[j],
    ensures
        (forall|i: int| 0 <= i < positions.len() ==> #[trigger] positions[i] != at) ==> {
            let cell = track_cell(positions, selected, color, at);
            &&& at < positions[0] || at > positions.last() ==> cell.text == " "@ && cell.style
                == Style::Plain
            &&& positions[0] <= at < positions[selected as int] ==> cell.text == "━"@ && cell.style
                == Style::Tinted(color)
            &&& positions[selected as int] <= at <= positions.last() ==> cell.text == "━"@
                && cell.style == Style::Tinted(Color::Gray)
        },
        forall|i: int|
            0 <= i < positions.len() && #[trigger] positions[i] == at && (forall|j: int|
                0 <= j < i ==> #[trigger] positions[j] != at) ==> {
                let cell = track_cell(positions, selected, color, at);
                &&& cell.style == Style::Tinted(color)
                &&& i == selected ==> cell.text == "◉"@
                &&& i != selected ==> cell.text == "○"@
            },
{
    lemma_marker_at(positions, at);
    lemma_marker_at_is_first(positions, at);
    assert(positions.first() == positions[0]);
    assert(positions.last() == positions[positions.len() - 1]);
}

proof fn lemma_marker_at_is_first(positions: Seq<usize>, at: int)
    ensures
        marker_at(positions, at) matches Some(i) ==> forall|j: int|
            0 <= j < i ==> #[trigger] positions[j] != at,
    decreases positions.len(),
{
    if positions.len() > 0 {
        let front = positions.drop_last();
        lemma_marker_at_is_first(front, at);
        lemma_marker_at(front, at);
        if let Some(i) = marker_at(positions, at) {
            assert forall|j: int| 0 <= j < i implies #[trigger] positions[j] != at by {
                assert(front[j] == positions[j]);
            }
        }
    }
}

/// The first row holds the label, and between its arrows a cell for each column of the track. An
/// arrow has the step's colour exactly where its key would change the step.
pub proof fn law_track_row_between_arrows(
    label: Seq<char>,
    track: usize,
    count: usize,
    selected: usize,
    color: Color,
)
    requires
        selected < count,
        color != Color::Foreground,
    ensures
        ({
            let row = track_row(label, track, count, selected, color);
            &&& row.len() == track + 6
            &&& row[0].text == label && row[0].style == Style::Tinted(Color::Foreground)
            &&& row[1].text == "  "@ && row[3].text == " "@ && row[track + 4].text == " "@
            &&& row[2].text == "◀"@
            &&& row[2].style == Style::Tinted(color) <==> after_key(
                selected,
                KeyCode::Left,
                count,
            ).1 is Changed
            &&& row[2].style == Style::Tinted(color) || row[2].style == Style::Tinted(
                Color::Foreground,
            )
            &&& forall|at: int|
                0 <= at < track ==> #[trigger] row[4 + at] == track_cell(
                    markers(track, count),
                    selected,
                    color,
                    at,
                )
            &&& row.last().text == "▶"@
            &&& row.last().style == Style::Tinted(color) <==> after_key(
                selected,
                KeyCode::Right,
                count,
            ).1 is Changed
            &&& row.last().style == Style::Tinted(color) || row.last().style == Style::Tinted(
                Color::Foreground,
            )
        }),
{
}

/// There is a marker for each step, at its place, and a single one stands in the middle.
pub proof fn law_marker_for_each_step(track: usize, count: usize, i: int)
    requires
        0 <= i < count,
        count > 1 ==> track >= 2,
    ensures
        markers(track, count).len() == count,
        markers(track, count)[i] == marker(track, count, i),
        count == 1 ==> marker(track, count, i) == track as int / 2,
{
    lemma_marker_on_track(track, count, i);
}

/// The first row of a slider.
pub fn render_track(label: &str, track_width: usize, count: usize, selected: usize, color: Color) -> (row:
    Vec<Span>)
    requires
        selected < count,
        count > 1 ==> track_width >= 2,
    ensures
        span::span_views(row@) == track_row(label@, track_width, count, selected, color),
{
    let positions: Vec<usize> = StepSlider::compute_positions(track_width, count);
    let mut row: Vec<Span> = Vec::new();
    add_span(&mut row, label.to_owned(), Style::Tinted(Color::Foreground));
    add_span(&mut row, "  ".to_owned(), Style::Plain);
    add_span(
        &mut row,
        "◀".to_owned(),
        Style::Tinted(if selected > 0 { color } else { Color::Foreground }),
    );
    add_span(&mut row, " ".to_owned(), Style::Plain);
    let ghost head = span::span_views(row@);
    let ghost cells = Seq::new(
        track_width as nat,
        |at: int| track_cell(positions@, selected, color, at),
    );
    let first: usize = positions[0];
    let last: usize = positions[count - 1];
    let at_selected: usize = positions[selected];
    let mut i: usize = 0;
    assert(span::span_views(row@) =~= head + cells.take(0));
    while i < track_width
        invariant
            i <= track_width,
            positions@.len() == count,
            selected < count,
            first == positions@.first(),
            last == positions@.last(),
            at_selected == positions@[selected as int],
            cells == Seq::new(
                track_width as nat,
                |at: int| track_cell(positions@, selected, color, at),
            ),
            span::span_views(row@) == head + cells.take(i as int),
        decreases track_width - i,
    {
        match find_marker(&positions, i) {
            Some(idx) => {
                let circle: &str = if idx == selected { "◉" } else { "○" };
                add_span(&mut row, circle.to_owned(), Style::Tinted(color));
            },
            None => if i >= first && i <= last {
                let tint: Color = if i < at_selected { color } else { Color::Gray };
                add_span(&mut row, "━".to_owned(), Style::Tinted(tint));
            } else {
                add_span(&mut row, " ".to_owned(), Style::Plain);
            },
        }
        assert(span::span_views(row@) =~= head + cells.take(i + 1));
        i += 1;
    }
    add_span(&mut row, " ".to_owned(), Style::Plain);
    add_span(
        &mut row,
        "▶".to_owned(),
        Style::Tinted(if selected < count - 1 { color } else { Color::Foreground }),
    );
    assert(span::span_views(row@) =~= track_row(label@, track_width, count, selected, color));
    row
}

/// A column of the row of labels, as the first `n` steps write it: each its label from the column
/// `pad` and its marker on, over what is there.
pub open spec fn label_cell(
    steps: Seq<Step>,
    positions: Seq<usize>,
    pad: int,
    selected: usize,
    n: int,
    column: int,
) -> span::SpanView
    decreases n,
{
    if n <= 0 {
        span::span(" "@, Style::Plain)
    } else {
        let from = pad + positions[n - 1];
        let label = steps[n - 1].label@;
        if from <= column < from + label.len() {
            span::span(seq![label[column - from]], label_style(steps, selected, n - 1))
        } else {
            label_cell(steps, positions, pad, selected, n - 1, column)
        }
    }
}

/// The look of a label: the colour of its step where that is selected, and else gray.
pub open spec fn label_style(steps: Seq<Step>, selected: usize, i: int) -> Style {
    Style::Tinted(
        if i == selected {
            steps[i].color
        } else {
            Color::Gray
        },
    )
}

/// The second row of a slider: the labels of the steps under their markers.
pub open spec fn label_row(
    steps: Seq<Step>,
    positions: Seq<usize>,
    pad: int,
    selected: usize,
    width: nat,
) -> Seq<span::SpanView> {
    Seq::new(
        width,
        |column: int| label_cell(steps, positions, pad, selected, steps.len() as int, column),
    )
}

/// A label stands letter by letter from its marker on, in its step's colour where that is selected
/// and else gray. Where labels meet, the later one covers the earlier. A column that no label
/// reaches is blank.
pub proof fn law_labels_stand_under_their_markers(
    steps: Seq<Step>,
    positions: Seq<usize>,
    pad: int,
    selected: usize,
    n: int,
    column: int,
    i: int,
)
    requires
        0 <= i < n,
    ensures
        pad + positions[i] <= column < pad + positions[i] + steps[i].label@.len() && (forall|j: int|
            i < j < n ==> !(pad + positions[j] <= column < pad + positions[j] + (
            #[trigger] steps[j]).label@.len())) ==> {
            let cell = label_cell(steps, positions, pad, selected, n, column);
            &&& cell.text == seq![steps[i].label@[column - pad - positions[i]]]
            &&& i == selected ==> cell.style == Style::Tinted(steps[i].color)
            &&& i != selected ==> cell.style == Style::Tinted(Color::Gray)
        },
        (forall|j: int|
            0 <= j < n ==> !(pad + positions[j] <= column < pad + positions[j] + (
            #[trigger] steps[j]).label@.len())) ==> {
            let cell = label_cell(steps, positions, pad, selected, n, column);
            cell.text == " "@ && cell.style == Style::Plain
        },
    decreases n,
{
    if n == 1 {
        reveal_with_fuel(label_cell, 2);
    } else if i < n - 1 {
        law_labels_stand_under_their_markers(steps, positions, pad, selected, n - 1, column, i);
    } else {
        law_labels_stand_under_their_markers(steps, positions, pad, selected, n - 1, column, 0);
    }
    assert(steps[n - 1] == steps[n - 1]);
}

/// The row of labels has a cell for each of its columns, written by all steps.
pub proof fn law_label_row_is_written_by_all(
    steps: Seq<Step>,
    positions: Seq<usize>,
    pad: int,
    selected: usize,
    width: nat,
    column: int,
)
    requires
        0 <= column < width,
    ensures
        label_row(steps, positions, pad, selected, width).len() == width,
        label_row(steps, positions, pad, selected, width)[column] == label_cell(
            steps,
            positions,
            pad,
            selected,
            steps.len() as int,
            column,
        ),
{
}

/// The second row of a slider, `width` columns of it.
pub fn render_labels(
    steps: &[Step],
    positions: &Vec<usize>,
    pad: usize,
    selected: usize,
    width: usize,
) -> (row: Vec<Span>)
    requires
        positions@.len() == steps@.len(),
        forall|i: int| 0 <= i < positions@.len() ==> pad + #[trigger] positions@[i] <= width,
    ensures
        span::span_views(row@) == label_row(
            steps@,
            positions@,
            pad as int,
            selected,
            width as nat,
        ),
{
    let mut row: Vec<Span> = Vec::new();
    let mut c: usize = 0;
    while c < width
        invariant
            c <= width,
            span::span_views(row@) =~= Seq::new(
                c as nat,
                |column: int| label_cell(steps@, positions@, pad as int, selected, 0, column),
            ),
        decreases width - c,
    {
        add_span(&mut row, " ".to_owned(), Style::Plain);
        c += 1;
    }
    let mut i: usize = 0;
    while i < steps.len()
        invariant
            i <= steps@.len(),
            positions@.len() == steps@.len(),
            forall|i: int| 0 <= i < positions@.len() ==> pad + #[trigger] positions@[i] <= width,
            span::span_views(row@) =~= Seq::new(
                width as nat,
                |column: int|
                    label_cell(steps@, positions@, pad as int, selected, i as int, column),
            ),
        decreases steps@.len() - i,
    {
        let from: usize = pad + positions[i];
        let label: &str = steps[i].label;
        let style: Style = Style::Tinted(
            if i == selected { steps[i].color } else { Color::Gray },
        );
        let ghost before = span::span_views(row@);
        let len: usize = label.unicode_len();
        let mut j: usize = 0;
        while j < len && j < width - from
            invariant
                j <= len,
                len == label@.len(),
                from <= width,
                j <= width - from,
                before.len() == width,
                span::span_views(row@) =~= Seq::new(
                    width as nat,
                    |column: int|
                        if from <= column < from + j {
                            span::span(seq![label@[column - from]], style)
                        } else {
                            before[column]
                        },
                ),
            decreases len - j,
        {
            let at: usize = from + j;
            let letter: String = label.substring_char(j, j + 1).to_owned();
            assert(letter@ =~= seq![label@[j as int]]);
            let ghost cells = row@;
            assert(row@.len() == span::span_views(row@).len());
            row.set(at, Span { text: letter, style });
            assert(span::span_views(row@) =~= span::span_views(cells).update(
                at as int,
                span::span(letter@, style),
            ));
            j += 1;
        }
        assert(span::span_views(row@) =~= Seq::new(
            width as nat,
            |column: int|
                label_cell(steps@, positions@, pad as int, selected, i + 1, column),
        ));
        i += 1;
    }
    row
}

/// What a slider shows.
#[derive(Debug)]
pub struct SliderView {
    pub area: Area,
    pub track: Vec<Span>,
    pub labels: Vec<Span>,
}

/// What becomes of drawing a slider. It cannot be drawn where no step is selected, the area is too
/// narrow for a track, or a row is longer than a list can be.
#[derive(Debug)]
pub enum SliderDraw {
    Nothing,
    Rows(SliderView),
    Impossible,
}

/// The width of the longest label.
pub open spec fn longest(steps: Seq<Step>) -> usize
    decreases steps.len(),
{
    if steps.len() == 0 {
        0
    } else {
        let width = span::shown_width(steps.last().label@);
        if width > longest(steps.drop_last()) {
            width
        } else {
            longest(steps.drop_last())
        }
    }
}

/// The longest label is as wide as one of them and no narrower than any.
pub proof fn law_longest_is_one_of_the_labels(steps: Seq<Step>)
    ensures
        forall|i: int|
            0 <= i < steps.len() ==> span::shown_width((#[trigger] steps[i]).label@) <= longest(
                steps,
            ),
        steps.len() == 0 ==> longest(steps) == 0,
        steps.len() > 0 ==> exists|i: int|
            0 <= i < steps.len() && span::shown_width((#[trigger] steps[i]).label@) == longest(
                steps,
            ),
    decreases steps.len(),
{
    if steps.len() > 0 {
        let front = steps.drop_last();
        law_longest_is_one_of_the_labels(front);
        assert forall|i: int| 0 <= i < steps.len() implies span::shown_width(
            (#[trigger] steps[i]).label@,
        ) <= longest(steps) by {
            if i < front.len() {
                assert(front[i] == steps[i]);
            }
        }
        let last = steps.len() - 1;
        if span::shown_width(steps[last].label@) == longest(steps) {
        } else {
            assert(front.len() > 0);
            let i = choose|i: int|
                0 <= i < front.len() && span::shown_width((#[trigger] front[i]).label@) == longest(
                    front,
                );
            assert(front[i] == steps[i]);
        }
    }
}

fn longest_label(steps: &[Step]) -> (width: usize)
    ensures
        width == longest(steps@),
{
    let mut width: usize = 0;
    let mut i: usize = 0;
    while i < steps.len()
        invariant
            i <= steps@.len(),
            width == longest(steps@.take(i as int)),
        decreases steps@.len() - i,
    {
        assert(steps@.take(i + 1).drop_last() =~= steps@.take(i as int));
        let w: usize = display_width(steps[i].label);
        if w > width {
            width = w;
        }
        i += 1;
    }
    assert(steps@.take(i as int) =~= steps@);
    width
}

/// The width of the track on an area: three tenths of the area's, without two columns for the
/// arrows.
pub open spec fn track_width(area: Area) -> int {
    3 * area.width / 10 - 2
}

impl StepSlider {
    /// Whether the slider is shown at all on an area, with `count` steps.
    pub open spec fn is_shown(&self, area: Area, count: nat) -> bool {
        self.visible && !area.is_flat() && count > 0 && area.height >= 2
    }

    /// Whether the slider can be drawn on an area: a step is selected, the track has a width, and
    /// the rows are no longer than a list can be. Where there is room for the slider, the track
    /// has room for its first and its last marker.
    pub open spec fn is_possible(
        &self,
        area: Area,
        count: nat,
        label_width: usize,
        longest: usize,
    ) -> bool {
        &&& self.selected < count
        &&& track_width(area) >= 0
        &&& label_width + 4 + track_width(area) <= usize::MAX
        &&& label_width + 4 + track_width(area) <= area.width ==> {
            &&& count > 1 ==> track_width(area) >= 2
            &&& label_width + 4 + track_width(area) + longest <= usize::MAX
        }
    }

    /// What a slider shows on an area where its label and the longest of the steps' labels have
    /// these widths: nothing where there is no room.
    pub open spec fn shows(
        &self,
        view: Option<SliderView>,
        area: Area,
        label: Seq<char>,
        label_width: usize,
        steps: Seq<Step>,
        longest: usize,
    ) -> bool {
        let track = track_width(area);
        let total = label_width + 4 + track;
        if !self.is_shown(area, steps.len()) || total > area.width {
            view is None
        } else {
            &&& view matches Some(v)
            &&& v.area == Area {
                x: area.x,
                y: area.y,
                width: (if total + longest < area.width {
                    total + longest
                } else {
                    area.width as int
                }) as u16,
                height: 2,
            }
            &&& span::span_views(v.track@) == track_row(
                label,
                track as usize,
                steps.len() as usize,
                self.selected,
                steps[self.selected as int].color,
            )
            &&& span::span_views(v.labels@) == label_row(
                steps,
                markers(track as usize, steps.len() as usize),
                label_width + 4,
                self.selected,
                (total + longest) as nat,
            )
        }
    }

    /// What the slider shows on an area, where its label is `label_width` wide and the longest of
    /// the steps' labels `longest`.
    pub fn lay_out(
        &self,
        area: Area,
        label: &str,
        label_width: usize,
        steps: &[Step],
        longest: usize,
    ) -> (view: Option<SliderView>)
        requires
            self.is_shown(area, steps@.len()) ==> self.is_possible(
                area,
                steps@.len(),
                label_width,
                longest,
            ),
        ensures
            self.shows(view, area, label@, label_width, steps@, longest),
    {
        if !self.visible || area.is_empty() || steps.len() == 0 || area.height < 2 {
            return None;
        }
        let color: Color = steps[self.selected].color;
        let count: usize = steps.len();
        let track: usize = (3 * area.width as u32 / 10 - 2) as usize;
        let total: usize = label_width + 4 + track;
        if total > area.width as usize {
            return None;
        }
        let row: Vec<Span> = render_track(label, track, count, self.selected, color);
        let positions: Vec<usize> = Self::compute_positions(track, count);
        let width: usize = if longest < area.width as usize - total {
            total + longest
        } else {
            area.width as usize
        };
        proof {
            assert forall|i: int| 0 <= i < positions@.len() implies label_width + 4
                + #[trigger] positions@[i] <= total + longest by {
                lemma_marker_on_track(track, count, i);
            }
        }
        let labels: Vec<Span> = render_labels(
            steps,
            &positions,
            label_width + 4,
            self.selected,
            total + longest,
        );
        Some(
            SliderView {
                area: Area { x: area.x, y: area.y, width: width as u16, height: 2 },
                track: row,
                labels,
            },
        )
    }

    /// What the slider shows on an area, by the widths that its labels take there.
    pub fn render(&self, area: Area, label: &str, steps: &[Step]) -> (draw: SliderDraw)
        ensures
            match draw {
                SliderDraw::Impossible => self.is_shown(area, steps@.len()) && !self.is_possible(
                    area,
                    steps@.len(),
                    span::shown_width(label@),
                    longest(steps@),
                ),
                SliderDraw::Nothing => self.shows(
                    None,
                    area,
                    label@,
                    span::shown_width(label@),
                    steps@,
                    longest(steps@),
                ) && (self.is_shown(area, steps@.len()) ==> self.is_possible(
                    area,
                    steps@.len(),
                    span::shown_width(label@),
                    longest(steps@),
                )),
                SliderDraw::Rows(v) => self.shows(
                    Some(v),
                    area,
                    label@,
                    span::shown_width(label@),
                    steps@,
                    longest(steps@),
                ) && self.is_possible(
                    area,
                    steps@.len(),
                    span::shown_width(label@),
                    longest(steps@),
                ),
            },
    {
        let label_width: usize = display_width(label);
        let longest: usize = longest_label(steps);
        if self.visible && !area.is_empty() && steps.len() > 0 && area.height >= 2 {
            let track: i64 = 3 * area.width as i64 / 10 - 2;
            if self.selected >= steps.len() || track < 0 {
                return SliderDraw::Impossible;
            }
            let total: u128 = label_width as u128 + 4 + track as u128;
            if total > usize::MAX as u128 {
                return SliderDraw::Impossible;
            }
            if total <= area.width as u128 && (steps.len() > 1 && track < 2 || total
                + longest as u128 > usize::MAX as u128) {
                return SliderDraw::Impossible;
            }
        }
        match self.lay_out(area, label, label_width, steps, longest) {
            Some(v) => SliderDraw::Rows(v),
            None => SliderDraw::Nothing,
        }
    }

    /// The line with the description of the selected step, in italics.
    pub fn description_line(&self, steps: &[Step]) -> (line: Vec<Span>)
        requires
            self.selected < steps@.len(),
        ensures
            span::span_views(line@) == seq![
                span::span(
                    steps@[self.selected as int].desc@,
                    Style::Italic(Color::Foreground),
                ),
            ],
    {
        let mut line: Vec<Span> = Vec::new();
        add_span(
            &mut line,
            steps[self.selected].desc.to_owned(),
            Style::Italic(Color::Foreground),
        );
        assert(span::span_views(line@) =~= seq![
            span::span(steps@[self.selected as int].desc@, Style::Italic(Color::Foreground)),
        ]);
        line
    }
}

/// The track and its arrows take three tenths of the area's columns, rounded down.
pub proof fn law_track_takes_three_tenths(area: Area)
    ensures
        10 * (track_width(area) + 2) <= 3 * area.width < 10 * (track_width(area) + 3),
{
}

/// A slider is drawn only where it is visible and has steps, on two rows of the area, from its
/// corner on and never beyond its columns. It is as wide as its label, four columns, the track and
/// the longest label ask, as far as the area goes. Where it is visible, has steps and there is room
/// for label and track on two rows, it is drawn.
pub proof fn law_drawn_slider_stays_on_its_area(
    slider: StepSlider,
    view: Option<SliderView>,
    area: Area,
    label: Seq<char>,
    label_width: usize,
    steps: Seq<Step>,
    longest: usize,
)
    requires
        slider.shows(view, area, label, label_width, steps, longest),
        slider.is_shown(area, steps.len()) ==> slider.is_possible(
            area,
            steps.len(),
            label_width,
            longest,
        ),
    ensures
        view is Some <==> slider.visible && steps.len() > 0 && area.width > 0 && area.height >= 2
            && label_width + 4 + track_width(area) <= area.width,
        view matches Some(v) ==> {
            let asked = label_width + 4 + track_width(area) + longest;
            &&& v.area.x == area.x
            &&& v.area.y == area.y
            &&& v.area.height == 2
            &&& v.area.width <= area.width
            &&& v.area.width <= asked
            &&& v.area.width == asked || v.area.width == area.width
            &&& slider.selected < steps.len()
            &&& span::span_views(v.track@) == track_row(
                label,
                track_width(area) as usize,
                steps.len() as usize,
                slider.selected,
                steps[slider.selected as int].color,
            )
            &&& v.labels@.len() == asked
            &&& span::span_views(v.labels@) == label_row(
                steps,
                markers(track_width(area) as usize, steps.len() as usize),
                label_width + 4,
                slider.selected,
                asked as nat,
            )
        },
{
    if let Some(v) = view {
        assert(span::span_views(v.labels@).len() == v.labels@.len());
    }
}

/// A slider that is shown can be drawn exactly where one of its steps is selected, the area has the
/// seven columns that arrows need, and the rows are not longer than a list can be. Where there is
/// room for label and track, several steps need an area of fourteen columns.
pub proof fn law_slider_can_be_drawn(
    slider: StepSlider,
    area: Area,
    count: nat,
    label_width: usize,
    longest: usize,
)
    ensures
        ({
            let total = label_width + 4 + track_width(area);
            slider.is_possible(area, count, label_width, longest) <==> {
                &&& slider.selected < count
                &&& area.width >= 7
                &&& total <= usize::MAX
                &&& total <= area.width ==> (count == 1 || area.width >= 14) && total + longest
                    <= usize::MAX
            }
        }),
        slider.is_shown(area, count) <==> slider.visible && count > 0 && area.width > 0
            && area.height >= 2,
{
}

/// Showing and hiding a slider keeps its step, and selecting a step neither shows nor hides it.
pub proof fn law_showing_and_selecting_are_apart(
    shown: &mut StepSlider,
    hidden: &mut StepSlider,
    set: &mut StepSlider,
    visible: bool,
    moved: &mut StepSlider,
    index: usize,
)
    requires
        call_ensures(StepSlider::show, (shown,), ()),
        call_ensures(StepSlider::conceal, (hidden,), ()),
        call_ensures(StepSlider::set_visible, (set, visible), ()),
        call_ensures(StepSlider::set_selected, (moved, index), ()),
    ensures
        final(shown).visible && final(shown).selected == old(shown).selected,
        !final(hidden).visible && final(hidden).selected == old(hidden).selected,
        final(set).visible == visible && final(set).selected == old(set).selected,
        final(moved).selected == index && final(moved).visible == old(moved).visible,
{
}

/// The levels of effort are named from the lowest to the highest, each in a colour of its own.
pub proof fn law_effort_grows_with_the_step(steps: Vec<Step>)
    requires
        call_ensures(effort_steps, (), steps),
    ensures
        steps@.len() == 3,
        steps@[0].label@ == "low"@ && steps@[0].color == Color::Green,
        steps@[1].label@ == "medium"@ && steps@[1].color == Color::Yellow,
        steps@[2].label@ == "high"@ && steps@[2].color == Color::Red,
{
}

/// A key that a slider handles changes nothing but the step. One key to the right and one to the
/// left lead back; a digit leads to its step from anywhere.
pub proof fn law_handled_key_changes_only_the_step(
    slider: &mut StepSlider,
    key: KeyCode,
    step_count: usize,
    action: StepSliderAction,
)
    requires
        old(slider).selected < step_count,
        call_ensures(StepSlider::handle_key, (slider, key, step_count), action),
    ensures
        final(slider).visible == old(slider).visible,
        final(slider).selected < step_count,
        action matches StepSliderAction::Changed(index) ==> index == final(slider).selected,
        action is Consumed ==> final(slider).selected == old(slider).selected,
        key is Left ==> final(slider).selected == (if old(slider).selected == 0 {
            0
        } else {
            old(slider).selected - 1
        }),
        key is Right ==> final(slider).selected == (if old(slider).selected + 1 == step_count {
            old(slider).selected as int
        } else {
            old(slider).selected + 1
        }),
        key is Other ==> action is Consumed,
        key matches KeyCode::Char(c) ==> ('1' <= c <= '9' && (c as int) - ('1' as int) < step_count
            ==> final(slider).selected == (c as int) - ('1' as int)),
{
    if let KeyCode::Char(c) = key {
        if '1' <= c <= '9' {
            law_keys_lead_to_steps(old(slider).selected, c, step_count);
        }
    }
}

/// To go on and then back, where there is a next step, leads where one was, and neither shows or
/// hides the slider.
pub proof fn law_prev_undoes_next(
    slider: &mut StepSlider,
    max: usize,
    on: StepSliderAction,
    next: &mut StepSlider,
    back: StepSliderAction,
)
    requires
        call_ensures(StepSlider::next_bounded, (slider, max), on),
        *old(next) == *final(slider),
        call_ensures(StepSlider::prev, (next,), back),
        old(slider).selected < max,
    ensures
        final(slider).selected == old(slider).selected + 1,
        on == StepSliderAction::Changed(final(slider).selected),
        final(next).selected == old(slider).selected,
        back == StepSliderAction::Changed(old(slider).selected),
        final(next).visible == old(slider).visible,
{
}

/// At the last step there is no next one, and at the first none before: nothing changes.
pub proof fn law_ends_hold_the_slider(
    last: &mut StepSlider,
    max: usize,
    on: StepSliderAction,
    first: &mut StepSlider,
    back: StepSliderAction,
)
    requires
        call_ensures(StepSlider::next_bounded, (last, max), on),
        call_ensures(StepSlider::prev, (first,), back),
        old(last).selected >= max,
        old(first).selected == 0,
    ensures
        *final(last) == *old(last),
        on is Consumed,
        *final(first) == *old(first),
        back is Consumed,
{
}

/// The description that is shown is that of the selected step.
pub proof fn law_description_is_of_the_selected_step(
    slider: &StepSlider,
    steps: &[Step],
    line: Vec<Span>,
)
    requires
        slider.selected < steps@.len(),
        call_ensures(StepSlider::description_line, (slider, steps), line),
    ensures
        line@.len() == 1,
        line@[0].text@ == steps@[slider.selected as int].desc@,
        line@[0].style == Style::Italic(Color::Foreground),
{
    assert(span::span_views(line@).len() == line@.len());
    assert(span::span_views(line@)[0] == line@[0]@);
}

/// A slider that is drawn stays on its area: two rows from its corner on, never wider than it. A
/// slider that is not visible, has no steps or fewer than two rows is not drawn, and that is not an
/// error.
pub proof fn law_rendered_slider_stays_on_its_area(
    slider: &StepSlider,
    area: Area,
    label: &str,
    steps: &[Step],
    draw: SliderDraw,
)
    requires
        call_ensures(StepSlider::render, (slider, area, label, steps), draw),
    ensures
        draw matches SliderDraw::Rows(v) ==> {
            &&& slider.visible
            &&& slider.selected < steps@.len()
            &&& v.area.x == area.x && v.area.y == area.y
            &&& v.area.height == 2
            &&& v.area.width <= area.width
            &&& v.track@.len() == track_width(area) + 6
        },
        !slider.visible || steps@.len() == 0 || area.height < 2 || area.width == 0 ==> draw is Nothing,
        draw is Impossible ==> slider.visible && steps@.len() > 0,
        slider.visible && steps@.len() > 0 && area.height >= 2 && area.width > 0 && slider.selected
            >= steps@.len() ==> draw is Impossible,
{
    if let SliderDraw::Rows(v) = draw {
        law_drawn_slider_stays_on_its_area(
            *slider,
            Some(v),
            area,
            label@,
            span::shown_width(label@),
            steps@,
            longest(steps@),
        );
        let track = span::span_views(v.track@);
        assert(track.len() == v.track@.len());
        assert(track.len() == track_width(area) + 6);
    }
}

} // verus!
