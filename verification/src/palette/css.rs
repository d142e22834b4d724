//! The **CSS named colours** — the one table that says whether a bare word
//! in a colour slot names a colour. A Lini colour is a hex literal, a
//! `--var` off the built-in palette, a builder call, or one of these names;
//! anything else is `invalid color 'X'`.
//!
//! The set is CSS Color 4's named-colour list — the compiler emits the name
//! verbatim into the SVG, so the authority is what a renderer understands,
//! not what this palette curates: `--rose` is a Lini hue, `rosybrown` a CSS
//! colour, and only the second is a bare word.

use crate::text::{ascii_lowercase, lower_text, str_eq};
use vstd::prelude::*;

verus! {

/// How many CSS colour names there are (plus the two paint keywords).
pub open spec fn css_name_count() -> nat {
    150
}

/// The `i`-th CSS colour name (past the last, the last).
pub open spec fn css_name(i: int) -> &'static str {
    if i == 0 {
        "aliceblue"
    } else if i == 1 {
        "antiquewhite"
    } else if i == 2 {
        "aqua"
    } else if i == 3 {
        "aquamarine"
    } else if i == 4 {
        "azure"
    } else if i == 5 {
        "beige"
    } else if i == 6 {
        "bisque"
    } else if i == 7 {
        "black"
    } else if i == 8 {
        "blanchedalmond"
    } else if i == 9 {
        "blue"
    } else if i == 10 {
        "blueviolet"
    } else if i == 11 {
        "brown"
    } else if i == 12 {
        "burlywood"
    } else if i == 13 {
        "cadetblue"
    } else if i == 14 {
        "chartreuse"
    } else if i == 15 {
        "chocolate"
    } else if i == 16 {
        "coral"
    } else if i == 17 {
        "cornflowerblue"
    } else if i == 18 {
        "cornsilk"
    } else if i == 19 {
        "crimson"
    } else if i == 20 {
        "currentcolor"
    } else if i == 21 {
        "cyan"
    } else if i == 22 {
        "darkblue"
    } else if i == 23 {
        "darkcyan"
    } else if i == 24 {
        "darkgoldenrod"
    } else if i == 25 {
        "darkgray"
    } else if i == 26 {
        "darkgreen"
    } else if i == 27 {
        "darkgrey"
    } else if i == 28 {
        "darkkhaki"
    } else if i == 29 {
        "darkmagenta"
    } else if i == 30 {
        "darkolivegreen"
    } else if i == 31 {
        "darkorange"
    } else if i == 32 {
        "darkorchid"
    } else if i == 33 {
        "darkred"
    } else if i == 34 {
        "darksalmon"
    } else if i == 35 {
        "darkseagreen"
    } else if i == 36 {
        "darkslateblue"
    } else if i == 37 {
        "darkslategray"
    } else if i == 38 {
        "darkslategrey"
    } else if i == 39 {
        "darkturquoise"
    } else if i == 40 {
        "darkviolet"
    } else if i == 41 {
        "deeppink"
    } else if i == 42 {
        "deepskyblue"
    } else if i == 43 {
        "dimgray"
    } else if i == 44 {
        "dimgrey"
    } else if i == 45 {
        "dodgerblue"
    } else if i == 46 {
        "firebrick"
    } else if i == 47 {
        "floralwhite"
    } else if i == 48 {
        "forestgreen"
    } else if i == 49 {
        "fuchsia"
    } else if i == 50 {
        "gainsboro"
    } else if i == 51 {
        "ghostwhite"
    } else if i == 52 {
        "gold"
    } else if i == 53 {
        "goldenrod"
    } else if i == 54 {
        "gray"
    } else if i == 55 {
        "green"
    } else if i == 56 {
        "greenyellow"
    } else if i == 57 {
        "grey"
    } else if i == 58 {
        "honeydew"
    } else if i == 59 {
        "hotpink"
    } else if i == 60 {
        "indianred"
    } else if i == 61 {
        "indigo"
    } else if i == 62 {
        "ivory"
    } else if i == 63 {
        "khaki"
    } else if i == 64 {
        "lavender"
    } else if i == 65 {
        "lavenderblush"
    } else if i == 66 {
        "lawngreen"
    } else if i == 67 {
        "lemonchiffon"
    } else if i == 68 {
        "lightblue"
    } else if i == 69 {
        "lightcoral"
    } else if i == 70 {
        "lightcyan"
    } else if i == 71 {
        "lightgoldenrodyellow"
    } else if i == 72 {
        "lightgray"
    } else if i == 73 {
        "lightgreen"
    } else if i == 74 {
        "lightgrey"
    } else if i == 75 {
        "lightpink"
    } else if i == 76 {
        "lightsalmon"
    } else if i == 77 {
        "lightseagreen"
    } else if i == 78 {
        "lightskyblue"
    } else if i == 79 {
        "lightslategray"
    } else if i == 80 {
        "lightslategrey"
    } else if i == 81 {
        "lightsteelblue"
    } else if i == 82 {
        "lightyellow"
    } else if i == 83 {
        "lime"
    } else if i == 84 {
        "limegreen"
    } else if i == 85 {
        "linen"
    } else if i == 86 {
        "magenta"
    } else if i == 87 {
        "maroon"
    } else if i == 88 {
        "mediumaquamarine"
    } else if i == 89 {
        "mediumblue"
    } else if i == 90 {
        "mediumorchid"
    } else if i == 91 {
        "mediumpurple"
    } else if i == 92 {
        "mediumseagreen"
    } else if i == 93 {
        "mediumslateblue"
    } else if i == 94 {
        "mediumspringgreen"
    } else if i == 95 {
        "mediumturquoise"
    } else if i == 96 {
        "mediumvioletred"
    } else if i == 97 {
        "midnightblue"
    } else if i == 98 {
        "mintcream"
    } else if i == 99 {
        "mistyrose"
    } else if i == 100 {
        "moccasin"
    } else if i == 101 {
        "navajowhite"
    } else if i == 102 {
        "navy"
    } else if i == 103 {
        "oldlace"
    } else if i == 104 {
        "olive"
    } else if i == 105 {
        "olivedrab"
    } else if i == 106 {
        "orange"
    } else if i == 107 {
        "orangered"
    } else if i == 108 {
        "orchid"
    } else if i == 109 {
        "palegoldenrod"
    } else if i == 110 {
        "palegreen"
    } else if i == 111 {
        "paleturquoise"
    } else if i == 112 {
        "palevioletred"
    } else if i == 113 {
        "papayawhip"
    } else if i == 114 {
        "peachpuff"
    } else if i == 115 {
        "peru"
    } else if i == 116 {
        "pink"
    } else if i == 117 {
        "plum"
    } else if i == 118 {
        "powderblue"
    } else if i == 119 {
        "purple"
    } else if i == 120 {
        "rebeccapurple"
    } else if i == 121 {
        "red"
    } else if i == 122 {
        "rosybrown"
    } else if i == 123 {
        "royalblue"
    } else if i == 124 {
        "saddlebrown"
    } else if i == 125 {
        "salmon"
    } else if i == 126 {
        "sandybrown"
    } else if i == 127 {
        "seagreen"
    } else if i == 128 {
        "seashell"
    } else if i == 129 {
        "sienna"
    } else if i == 130 {
        "silver"
    } else if i == 131 {
        "skyblue"
    } else if i == 132 {
        "slateblue"
    } else if i == 133 {
        "slategray"
    } else if i == 134 {
        "slategrey"
    } else if i == 135 {
        "snow"
    } else if i == 136 {
        "springgreen"
    } else if i == 137 {
        "steelblue"
    } else if i == 138 {
        "tan"
    } else if i == 139 {
        "teal"
    } else if i == 140 {
        "thistle"
    } else if i == 141 {
        "tomato"
    } else if i == 142 {
        "transparent"
    } else if i == 143 {
        "turquoise"
    } else if i == 144 {
        "violet"
    } else if i == 145 {
        "wheat"
    } else if i == 146 {
        "white"
    } else if i == 147 {
        "whitesmoke"
    } else if i == 148 {
        "yellow"
    } else {
        "yellowgreen"
    }
}

/// The `i`-th CSS colour name.
fn name_at(i: usize) -> (s: &'static str)
    requires
        i < css_name_count(),
    ensures
        s == css_name(i as int),
{
    match i {
        0 => "aliceblue",
        1 => "antiquewhite",
        2 => "aqua",
        3 => "aquamarine",
        4 => "azure",
        5 => "beige",
        6 => "bisque",
        7 => "black",
        8 => "blanchedalmond",
        9 => "blue",
        10 => "blueviolet",
        11 => "brown",
        12 => "burlywood",
        13 => "cadetblue",
        14 => "chartreuse",
        15 => "chocolate",
        16 => "coral",
        17 => "cornflowerblue",
        18 => "cornsilk",
        19 => "crimson",
        20 => "currentcolor",
        21 => "cyan",
        22 => "darkblue",
        23 => "darkcyan",
        24 => "darkgoldenrod",
        25 => "darkgray",
        26 => "darkgreen",
        27 => "darkgrey",
        28 => "darkkhaki",
        29 => "darkmagenta",
        30 => "darkolivegreen",
        31 => "darkorange",
        32 => "darkorchid",
        33 => "darkred",
        34 => "darksalmon",
        35 => "darkseagreen",
        36 => "darkslateblue",
        37 => "darkslategray",
        38 => "darkslategrey",
        39 => "darkturquoise",
        40 => "darkviolet",
        41 => "deeppink",
        42 => "deepskyblue",
        43 => "dimgray",
        44 => "dimgrey",
        45 => "dodgerblue",
        46 => "firebrick",
        47 => "floralwhite",
        48 => "forestgreen",
        49 => "fuchsia",
        50 => "gainsboro",
        51 => "ghostwhite",
        52 => "gold",
        53 => "goldenrod",
        54 => "gray",
        55 => "green",
        56 => "greenyellow",
        57 => "grey",
        58 => "honeydew",
        59 => "hotpink",
        60 => "indianred",
        61 => "indigo",
        62 => "ivory",
        63 => "khaki",
        64 => "lavender",
        65 => "lavenderblush",
        66 => "lawngreen",
        67 => "lemonchiffon",
        68 => "lightblue",
        69 => "lightcoral",
        70 => "lightcyan",
        71 => "lightgoldenrodyellow",
        72 => "lightgray",
        73 => "lightgreen",
        74 => "lightgrey",
        75 => "lightpink",
        76 => "lightsalmon",
        77 => "lightseagreen",
        78 => "lightskyblue",
        79 => "lightslategray",
        80 => "lightslategrey",
        81 => "lightsteelblue",
        82 => "lightyellow",
        83 => "lime",
        84 => "limegreen",
        85 => "linen",
        86 => "magenta",
        87 => "maroon",
        88 => "mediumaquamarine",
        89 => "mediumblue",
        90 => "mediumorchid",
        91 => "mediumpurple",
        92 => "mediumseagreen",
        93 => "mediumslateblue",
        94 => "mediumspringgreen",
        95 => "mediumturquoise",
        96 => "mediumvioletred",
        97 => "midnightblue",
        98 => "mintcream",
        99 => "mistyrose",
        100 => "moccasin",
        101 => "navajowhite",
        102 => "navy",
        103 => "oldlace",
        104 => "olive",
        105 => "olivedrab",
        106 => "orange",
        107 => "orangered",
        108 => "orchid",
        109 => "palegoldenrod",
        110 => "palegreen",
        111 => "paleturquoise",
        112 => "palevioletred",
        113 => "papayawhip",
        114 => "peachpuff",
        115 => "peru",
        116 => "pink",
        117 => "plum",
        118 => "powderblue",
        119 => "purple",
        120 => "rebeccapurple",
        121 => "red",
        122 => "rosybrown",
        123 => "royalblue",
        124 => "saddlebrown",
        125 => "salmon",
        126 => "sandybrown",
        127 => "seagreen",
        128 => "seashell",
        129 => "sienna",
        130 => "silver",
        131 => "skyblue",
        132 => "slateblue",
        133 => "slategray",
        134 => "slategrey",
        135 => "snow",
        136 => "springgreen",
        137 => "steelblue",
        138 => "tan",
        139 => "teal",
        140 => "thistle",
        141 => "tomato",
        142 => "transparent",
        143 => "turquoise",
        144 => "violet",
        145 => "wheat",
        146 => "white",
        147 => "whitesmoke",
        148 => "yellow",
        _ => "yellowgreen",
    }
}

/// The 148 CSS colour names, plus the two keywords a paint slot takes
/// (`transparent`, `currentcolor`), sorted. Compared ASCII-lowercased — CSS
/// names are case-insensitive, which is what lets `currentColor` read.
pub open spec fn css_names() -> Seq<&'static str> {
    Seq::new(css_name_count(), |i: int| css_name(i))
}

/// The table, in order.
pub fn names() -> (v: Vec<&'static str>)
    ensures
        v@ == css_names(),
{
    let mut v: Vec<&'static str> = Vec::new();
    let mut i: usize = 0;
    while i < 150
        invariant
            i <= 150,
            v@ =~= css_names().take(i as int),
        decreases 150 - i,
    {
        v.push(name_at(i));
        i = i + 1;
    }
    proof {
        assert(css_names().take(150) =~= css_names());
    }
    v
}

/// Whether `word`, ASCII-lowercased, is a CSS colour name or one of the two
/// non-colour paint keywords (`none` paints nothing; `auto` is the series'
/// derive-my-edge sentinel).
pub open spec fn names_colour(word: Seq<char>) -> bool {
    let lower = lower_text(word);
    (exists|i: int| 0 <= i < css_name_count() && (#[trigger] css_name(i))@ == lower)
        || lower == "none"@ || lower == "auto"@
}

/// Whether a bare word names a colour in a colour slot.
pub fn is_color_name(word: &str) -> (r: bool)
    ensures
        r == names_colour(word@),
{
    let lower = ascii_lowercase(word);
    let l = lower.as_str();
    let ghost lw = lower_text(word@);
    let mut i: usize = 0;
    while i < 150
        invariant
            i <= 150,
            l@ == lw,
            lw == lower_text(word@),
            forall|j: int| 0 <= j < i ==> (#[trigger] css_name(j))@ != lw,
        decreases 150 - i,
    {
        if str_eq(name_at(i), l) {
            assert(css_name(i as int)@ == lw);
            return true;
        }
        i = i + 1;
    }
    str_eq(l, "none") || str_eq(l, "auto")
}

} // verus!
