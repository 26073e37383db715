//! Splitting a chunk into spans of one language each.
//!
//! A chunk is cut into windows, the language of every window is detected, and
//! neighbouring windows of the same language become one segment. A window only
//! changes the language when its detection was confident.

use vstd::prelude::*;

verus! {

/// Encoder positions for one second of audio: a mel frame every 160 samples, two
/// mel frames to a position, 16000 samples to a second.
pub const ENCODER_POSITIONS_PER_SEC: usize = 50;

/// Length of a detection window, one and a half seconds.
pub const LANGUAGE_WINDOW_POSITIONS: usize = ENCODER_POSITIONS_PER_SEC * 3 / 2;

/// A last window shorter than this, half a second, is too short to be judged by
/// itself and becomes part of the window before it.
pub const MIN_LANGUAGE_WINDOW_POSITIONS: usize = ENCODER_POSITIONS_PER_SEC / 2;

/// The language found in a window. `confident` tells whether the detection was
/// sure enough to change the language of the transcript.
#[derive(Debug, Clone, Copy, PartialEq, Eq, Structural)]
pub struct Detection {
    pub token: u32,
    pub confident: bool,
}

/// A window of encoder positions, `start..end`, and what was detected in it.
#[derive(Debug, Clone, Copy, PartialEq, Eq, Structural)]
pub struct Window {
    pub start: usize,
    pub end: usize,
    pub detection: Detection,
}

/// The encoder positions `start..end`, in the language of `token`.
#[derive(Debug, Clone, Copy, PartialEq, Eq, Structural)]
pub struct Segment {
    pub start: usize,
    pub end: usize,
    pub token: u32,
}

/// How many windows of full length, 75 positions, it takes to cover `positions`, the
/// last one possibly cut short.
pub open spec fn full_windows(positions: nat) -> nat {
    ((positions + 74) / 75) as nat
}

/// How many windows `positions` are cut into: a last window of fewer than 25
/// positions is no window of its own.
pub open spec fn window_count(positions: nat) -> nat {
    let n = full_windows(positions);
    if n >= 2 && positions - (n - 1) * 75 < 25 {
        (n - 1) as nat
    } else {
        n
    }
}

/// Where the windows begin, followed by where the last one ends.
pub open spec fn boundaries(positions: nat) -> Seq<int> {
    Seq::new(
        window_count(positions) + 1,
        |i: int|
            if i < window_count(positions) {
                i * 75
            } else {
                positions as int
            },
    )
}

/// Cuts `positions` encoder positions into windows and returns their boundaries.
pub fn window_boundaries(positions: usize) -> (bounds: Vec<usize>)
    ensures
        bounds@.map_values(|b: usize| b as int) == boundaries(positions as nat),
{
    let mut bounds: Vec<usize> = Vec::new();
    let mut at: usize = 0;
    let mut more: bool = positions > 0;
    while more
        invariant
            more ==> at < positions && at == bounds.len() * 75,
            !more ==> bounds.len() == full_windows(positions as nat),
            forall|i: int| 0 <= i < bounds.len() ==> #[trigger] bounds[i] == i * 75,
            bounds.len() > 0 ==> (bounds.len() - 1) * 75 < positions,
        decreases positions - at, (if more { 1int } else { 0int }),
    {
        bounds.push(at);
        if positions - at > LANGUAGE_WINDOW_POSITIONS {
            at += LANGUAGE_WINDOW_POSITIONS;
        } else {
            more = false;
        }
    }
    let n: usize = bounds.len();
    if n >= 2 && positions - bounds[n - 1] < MIN_LANGUAGE_WINDOW_POSITIONS {
        bounds.pop();
    }
    bounds.push(positions);
    assert(bounds@.map_values(|b: usize| b as int) =~= boundaries(positions as nat));
    bounds
}

/// The language in force at window `i`: the detected one, unless it differs from
/// the language in force before and was not detected confidently.
pub open spec fn language_at(windows: Seq<Window>, i: int) -> u32
    decreases i,
{
    let d = windows[i].detection;
    if i > 0 && d.token != language_at(windows, i - 1) && !d.confident {
        language_at(windows, i - 1)
    } else {
        d.token
    }
}

/// The segments of `windows`: every window either lengthens the last segment, if
/// that is in the language in force, or begins a new one.
pub open spec fn merged(windows: Seq<Window>) -> Seq<Segment>
    decreases windows.len(),
{
    if windows.len() == 0 {
        Seq::empty()
    } else {
        let before = merged(windows.drop_last());
        let w = windows.last();
        let token = language_at(windows, windows.len() - 1);
        if before.len() > 0 && before.last().token == token {
            before.update(before.len() - 1, Segment { end: w.end, ..before.last() })
        } else {
            before.push(Segment { start: w.start, end: w.end, token })
        }
    }
}

proof fn lemma_language_at_prefix(windows: Seq<Window>, n: int, i: int)
    requires
        0 <= i < n <= windows.len(),
    ensures
        language_at(windows.take(n), i) == language_at(windows, i),
    decreases i,
{
    if i > 0 {
        lemma_language_at_prefix(windows, n, i - 1);
    }
}

/// Merges windows, in order, into segments of one language each.
pub fn merge_windows(windows: &Vec<Window>) -> (segments: Vec<Segment>)
    ensures
        segments@ == merged(windows@),
{
    let mut current: Option<u32> = None;
    let mut segments: Vec<Segment> = Vec::new();
    let mut i: usize = 0;
    assert(windows@.take(0) =~= Seq::empty());
    while i < windows.len()
        invariant
            i <= windows.len(),
            segments@ == merged(windows@.take(i as int)),
            i == 0 ==> current is None,
            i > 0 ==> current == Some(language_at(windows@, i - 1)),
        decreases windows.len() - i,
    {
        let w = windows[i];
        proof {
            assert(windows@.take(i + 1).drop_last() =~= windows@.take(i as int));
            lemma_language_at_prefix(windows@, i + 1, i as int);
        }
        let token: u32 = match current {
            Some(c) => if w.detection.token != c && !w.detection.confident {
                c
            } else {
                w.detection.token
            },
            None => w.detection.token,
        };
        assert(token == language_at(windows@, i as int));
        current = Some(token);
        let n: usize = segments.len();
        if n > 0 && segments[n - 1].token == token {
            let last = segments[n - 1];
            segments.set(n - 1, Segment { start: last.start, end: w.end, token: last.token });
        } else {
            segments.push(Segment { start: w.start, end: w.end, token });
        }
        assert(segments@ =~= merged(windows@.take(i + 1)));
        i += 1;
    }
    assert(windows@.take(i as int) =~= windows@);
    segments
}

/// The windows of `positions` with what was detected in them, one detection for
/// each window.
pub open spec fn windows_of(positions: nat, detections: Seq<Detection>) -> Seq<Window> {
    Seq::new(
        detections.len(),
        |i: int|
            Window {
                start: boundaries(positions)[i] as usize,
                end: boundaries(positions)[i + 1] as usize,
                detection: detections[i],
            },
    )
}

/// Whether `detect`, asked about the first windows of `positions` in order, may
/// have answered `detections`.
pub open spec fn detected<D: Fn(usize, usize) -> Result<Detection, String>>(
    detect: D,
    positions: nat,
    detections: Seq<Detection>,
) -> bool {
    forall|i: int|
        #![trigger detections[i]]
        0 <= i < detections.len() ==> call_ensures(
            detect,
            (boundaries(positions)[i] as usize, boundaries(positions)[i + 1] as usize),
            Ok(detections[i]),
        )
}

/// Splits the first `positions` encoder positions of a chunk into segments of one
/// language each. `detect` finds the language of the positions from its first
/// argument up to its second; it is asked once for every window, in order, and
/// its first failure ends the work.
pub fn segment_by_language<D: Fn(usize, usize) -> Result<Detection, String>>(
    positions: usize,
    detect: D,
) -> (res: Result<Vec<Segment>, String>)
    requires
        forall|start: usize, end: usize| #[trigger] call_requires(detect, (start, end)),
    ensures
        match res {
            Ok(segments) => exists|detections: Seq<Detection>|
                {
                    &&& detections.len() == window_count(positions as nat)
                    &&& detected(detect, positions as nat, detections)
                    &&& segments@ == #[trigger] merged(windows_of(positions as nat, detections))
                },
            Err(e) => exists|detections: Seq<Detection>|
                {
                    let i = detections.len() as int;
                    &&& i < window_count(positions as nat)
                    &&& #[trigger] detected(detect, positions as nat, detections)
                    &&& call_ensures(
                        detect,
                        (
                            boundaries(positions as nat)[i] as usize,
                            boundaries(positions as nat)[i + 1] as usize,
                        ),
                        Err::<Detection, String>(e),
                    )
                },
        },
{
    let bounds = window_boundaries(positions);
    let ghost p = positions as nat;
    let mut windows: Vec<Window> = Vec::new();
    let ghost mut detections: Seq<Detection> = Seq::empty();
    assert(bounds@.len() == boundaries(p).len()) by {
        assert(bounds@.map_values(|b: usize| b as int).len() == bounds@.len());
    }
    assert forall|i: int| 0 <= i < bounds.len() implies #[trigger] bounds[i] == boundaries(p)[i] by {
        assert(bounds@.map_values(|b: usize| b as int)[i] == bounds[i] as int);
    }
    let mut i: usize = 0;
    while i + 1 < bounds.len()
        invariant
            forall|start: usize, end: usize| #[trigger] call_requires(detect, (start, end)),
            p == positions as nat,
            bounds.len() == window_count(p) + 1,
            boundaries(p).len() == bounds.len(),
            forall|k: int| 0 <= k < bounds.len() ==> #[trigger] bounds[k] == boundaries(p)[k],
            i < bounds.len(),
            detections.len() == i,
            detected(detect, p, detections),
            windows@ == windows_of(p, detections),
        decreases bounds.len() - i,
    {
        let start: usize = bounds[i];
        let end: usize = bounds[i + 1];
        match detect(start, end) {
            Ok(detection) => {
                windows.push(Window { start, end, detection });
                proof {
                    detections = detections.push(detection);
                    assert(windows@ =~= windows_of(p, detections));
                }
            },
            Err(e) => {
                return Err(e);
            },
        }
        i += 1;
    }
    Ok(merge_windows(&windows))
}

/// Windows that lie one after the other without a gap, none of them empty.
pub open spec fn consecutive_windows(windows: Seq<Window>) -> bool {
    &&& forall|i: int| 0 <= i < windows.len() ==> (#[trigger] windows[i]).start < windows[i].end
    &&& forall|i: int, j: int|
        0 <= i && j == i + 1 && j < windows.len() ==> (#[trigger] windows[i]).end == (
        #[trigger] windows[j]).start
}

/// Segments that lie one after the other without a gap, none of them empty, no
/// two neighbours in the same language.
pub open spec fn consecutive_segments(segments: Seq<Segment>) -> bool {
    &&& forall|i: int| 0 <= i < segments.len() ==> (#[trigger] segments[i]).start < segments[i].end
    &&& forall|i: int, j: int|
        0 <= i && j == i + 1 && j < segments.len() ==> (#[trigger] segments[i]).end == (
        #[trigger] segments[j]).start && segments[i].token != segments[j].token
}

/// The windows begin at the first position, follow one another without a gap, and
/// end at the last position. None is longer than 99 positions, and none is shorter
/// than 25 unless it is the only one.
pub proof fn law_windows_cover_positions(positions: usize, detections: Seq<Detection>)
    requires
        positions > 0,
        detections.len() == window_count(positions as nat),
    ensures
        ({
            let windows = windows_of(positions as nat, detections);
            &&& windows.len() >= 1
            &&& windows.first().start == 0
            &&& windows.last().end == positions
            &&& consecutive_windows(windows)
            &&& forall|i: int|
                0 <= i < windows.len() ==> (#[trigger] windows[i]).end - windows[i].start <= 99
            &&& windows.len() >= 2 ==> forall|i: int|
                0 <= i < windows.len() ==> (#[trigger] windows[i]).end - windows[i].start >= 25
        }),
{
    let b = boundaries(positions as nat);
    let windows = windows_of(positions as nat, detections);
    assert(forall|i: int| 0 <= i < b.len() ==> 0 <= #[trigger] b[i] <= positions);
    assert forall|i: int| 0 <= i < windows.len() implies windows[i].start == b[i] && windows[i].end
        == b[i + 1] by {
        assert(0 <= b[i] <= positions && 0 <= b[i + 1] <= positions);
    }
}

/// Merging consecutive windows loses and adds nothing: the segments follow one
/// another without a gap from the start of the first window to the end of the
/// last, and neighbouring segments are in different languages.
pub proof fn law_segments_partition(windows: Seq<Window>)
    requires
        windows.len() > 0,
        consecutive_windows(windows),
    ensures
        merged(windows).len() > 0,
        merged(windows).first().start == windows.first().start,
        merged(windows).last().end == windows.last().end,
        merged(windows).last().token == language_at(windows, windows.len() - 1),
        consecutive_segments(merged(windows)),
    decreases windows.len(),
{
    let shorter = windows.drop_last();
    if shorter.len() > 0 {
        assert(shorter =~= windows.take(windows.len() - 1));
        assert forall|i: int, j: int|
            0 <= i && j == i + 1 && j < shorter.len() implies (#[trigger] shorter[i]).end == (
        #[trigger] shorter[j]).start by {
            assert(shorter[i] == windows[i] && shorter[j] == windows[j]);
        }
        law_segments_partition(shorter);
        lemma_language_at_prefix(windows, windows.len() - 1, windows.len() - 2);
        let before = merged(shorter);
        assert(windows[windows.len() - 2].end == windows[windows.len() - 1].start);
        assert(windows[windows.len() - 1].start < windows[windows.len() - 1].end);
        assert(before[before.len() - 1].start < before[before.len() - 1].end);
    } else {
        assert(merged(shorter) =~= Seq::empty());
        assert(windows[0].start < windows[0].end);
    }
}

/// Every window lies inside a segment in the language in force at that window.
pub proof fn law_windows_lie_in_segments(windows: Seq<Window>, i: int)
    requires
        consecutive_windows(windows),
        0 <= i < windows.len(),
    ensures
        exists|j: int|
            {
                &&& 0 <= j < merged(windows).len()
                &&& (#[trigger] merged(windows)[j]).start <= windows[i].start
                &&& windows[i].end <= merged(windows)[j].end
                &&& merged(windows)[j].token == language_at(windows, i)
            },
    decreases windows.len(),
{
    let shorter = windows.drop_last();
    let n = windows.len() as int;
    law_segments_partition(windows);
    let after = merged(windows);
    if i < n - 1 {
        assert(shorter =~= windows.take(n - 1));
        assert forall|k: int, l: int|
            0 <= k && l == k + 1 && l < shorter.len() implies (#[trigger] shorter[k]).end == (
        #[trigger] shorter[l]).start by {
            assert(shorter[k] == windows[k] && shorter[l] == windows[l]);
        }
        law_windows_lie_in_segments(shorter, i);
        lemma_language_at_prefix(windows, n - 1, i);
        let before = merged(shorter);
        law_segments_partition(shorter);
        let j = choose|j: int|
            {
                &&& 0 <= j < before.len()
                &&& (#[trigger] before[j]).start <= shorter[i].start
                &&& shorter[i].end <= before[j].end
                &&& before[j].token == language_at(shorter, i)
            };
        assert(windows[n - 2].end == windows[n - 1].start);
        assert(windows[n - 1].start < windows[n - 1].end);
        assert(after[j].token == before[j].token);
        assert(after[j].start == before[j].start);
        assert(after[j].end >= before[j].end);
    } else {
        let j = after.len() - 1;
        if shorter.len() > 0 && merged(shorter).len() > 0 {
            assert(shorter =~= windows.take(n - 1));
            assert forall|k: int, l: int|
                0 <= k && l == k + 1 && l < shorter.len() implies (#[trigger] shorter[k]).end == (
            #[trigger] shorter[l]).start by {
                assert(shorter[k] == windows[k] && shorter[l] == windows[l]);
            }
            law_segments_partition(shorter);
            let before = merged(shorter);
            assert(before[before.len() - 1].start < before[before.len() - 1].end);
            assert(windows[n - 2].end == windows[n - 1].start);
        }
        assert(after[j].start <= windows[i].start);
    }
}

/// A confident detection is always believed.
pub proof fn law_confident_detection_is_believed(windows: Seq<Window>, i: int)
    requires
        0 <= i < windows.len(),
        windows[i].detection.confident,
    ensures
        language_at(windows, i) == windows[i].detection.token,
{
}

/// Doubtful detections never split a chunk: where no window after the first
/// confidently detects another language, there is one segment, in the language
/// of the first window, from the first window to the last.
pub proof fn law_doubtful_detections_never_split(windows: Seq<Window>)
    requires
        windows.len() > 0,
        forall|i: int|
            0 <= i < windows.len() ==> !(#[trigger] windows[i]).detection.confident
                || windows[i].detection.token == windows[0].detection.token,
    ensures
        merged(windows) == seq![
            Segment {
                start: windows.first().start,
                end: windows.last().end,
                token: windows.first().detection.token,
            },
        ],
    decreases windows.len(),
{
    lemma_language_never_changes(windows, windows.len() - 1);
    let shorter = windows.drop_last();
    if shorter.len() > 0 {
        law_doubtful_detections_never_split(shorter);
    } else {
        assert(merged(shorter) =~= Seq::empty());
    }
    assert(merged(windows) =~= seq![
        Segment {
            start: windows.first().start,
            end: windows.last().end,
            token: windows.first().detection.token,
        },
    ]);
}

proof fn lemma_language_never_changes(windows: Seq<Window>, i: int)
    requires
        0 <= i < windows.len(),
        forall|k: int|
            0 <= k < windows.len() ==> !(#[trigger] windows[k]).detection.confident
                || windows[k].detection.token == windows[0].detection.token,
    ensures
        language_at(windows, i) == windows[0].detection.token,
    decreases i,
{
    if i > 0 {
        lemma_language_never_changes(windows, i - 1);
        assert(!windows[i].detection.confident || windows[i].detection.token
            == windows[0].detection.token);
    }
}

/// Every window but the last is exactly one and a half seconds, 75 positions, long. The
/// last of several is between half a second, 25 positions, and 99 positions long; a window
/// that is the only one may be shorter.
pub proof fn law_windows_are_regular(positions: usize, detections: Seq<Detection>, i: int)
    requires
        positions > 0,
        detections.len() == window_count(positions as nat),
        0 <= i < detections.len(),
    ensures
        windows_of(positions as nat, detections)[i].start == 75 * i,
        i < detections.len() - 1 ==> windows_of(positions as nat, detections)[i].end == 75 * i + 75,
        i == detections.len() - 1 ==> windows_of(positions as nat, detections)[i].end == positions,
        detections.len() >= 2 ==> 25 <= positions - 75 * (detections.len() - 1) <= 99,
        detections.len() == 1 ==> positions <= 99,
        windows_of(positions as nat, detections)[i].detection == detections[i],
{
    law_windows_cover_positions(positions, detections);
    let b = boundaries(positions as nat);
    assert(0 <= b[i] <= positions && 0 <= b[i + 1] <= positions);
}

/// Every window is asked about as it lies, and what is answered is what counts for it.
pub proof fn law_every_window_is_asked_about<D: Fn(usize, usize) -> Result<Detection, String>>(
    detect: D,
    positions: usize,
    detections: Seq<Detection>,
    i: int,
)
    requires
        positions > 0,
        detections.len() == window_count(positions as nat),
        detected(detect, positions as nat, detections),
        0 <= i < detections.len(),
    ensures
        call_ensures(
            detect,
            (
                (75 * i) as usize,
                if i < detections.len() - 1 {
                    (75 * i + 75) as usize
                } else {
                    positions
                },
            ),
            Ok::<Detection, String>(detections[i]),
        ),
{
    law_windows_are_regular(positions, detections, i);
    let b = boundaries(positions as nat);
    assert(detections[i] == detections[i]);
    assert(b[i] == 75 * i);
    assert(b[i + 1] == if i < detections.len() - 1 {
        75 * i + 75
    } else {
        positions as int
    });
}

/// A doubtful detection never changes the language: it stays that of the window before,
/// whatever languages came earlier.
pub proof fn law_doubtful_window_keeps_the_language(windows: Seq<Window>, i: int)
    requires
        0 < i < windows.len(),
        !windows[i].detection.confident,
    ensures
        language_at(windows, i) == language_at(windows, i - 1),
{
}

/// The first window is believed, however doubtful.
pub proof fn law_first_window_is_believed(windows: Seq<Window>)
    requires
        windows.len() > 0,
    ensures
        language_at(windows, 0) == windows[0].detection.token,
{
}

/// Every segment but the first begins at a window whose detection was confident, and is in
/// the language that was detected there.
pub proof fn law_segments_begin_confidently(windows: Seq<Window>, j: int)
    requires
        consecutive_windows(windows),
        0 < j < merged(windows).len(),
    ensures
        exists|i: int|
            {
                &&& 0 < i < windows.len()
                &&& (#[trigger] windows[i]).start == merged(windows)[j].start
                &&& windows[i].detection.confident
                &&& windows[i].detection.token == merged(windows)[j].token
            },
    decreases windows.len(),
{
    let shorter = windows.drop_last();
    let n = windows.len() as int;
    let before = merged(shorter);
    let after = merged(windows);
    if shorter.len() == 0 {
        assert(before =~= Seq::empty());
    } else {
        assert(shorter =~= windows.take(n - 1));
        assert forall|k: int, l: int|
            0 <= k && l == k + 1 && l < shorter.len() implies (#[trigger] shorter[k]).end == (
        #[trigger] shorter[l]).start by {
            assert(shorter[k] == windows[k] && shorter[l] == windows[l]);
        }
        law_segments_partition(shorter);
        lemma_language_at_prefix(windows, n - 1, n - 2);
        if j < before.len() {
            law_segments_begin_confidently(shorter, j);
            let i = choose|i: int|
                {
                    &&& 0 < i < shorter.len()
                    &&& (#[trigger] shorter[i]).start == before[j].start
                    &&& shorter[i].detection.confident
                    &&& shorter[i].detection.token == before[j].token
                };
            assert(windows[i] == shorter[i]);
            assert(after[j].start == before[j].start && after[j].token == before[j].token);
        } else {
            assert(windows[n - 1].detection.confident);
            assert(windows[n - 1].start == after[j].start);
        }
    }
}

} // verus!
