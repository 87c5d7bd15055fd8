//! The sRGB transfer function, quantized.
//!
//! `srgb_quantize` maps a 16-bit linear intensity to the nearest 8-bit sRGB
//! code: with l = lin / 65535, the sRGB value is 12.92 l while
//! l <= 0.0031308 and 1.055 l^(1/2.4) - 0.055 above that, and the code is
//! round(255 * value).  That map from 65536 inputs to 256 codes is a pure
//! integer function, written out here through its precomputed cut points:
//! code b is returned exactly once `lin` reaches the b-th threshold.  (For
//! example the smallest linear input whose sRGB value rounds to 1/255 is
//! 10/65535, so the first threshold reads 10.)

use vstd::prelude::*;

verus! {

/// The 8-bit sRGB code of a 16-bit linear intensity.
pub open spec fn srgb_u8(lin: int) -> int {
    if lin >= 65244 {
        255
    } else if lin >= 64662 {
        254
    } else if lin >= 64083 {
        253
    } else if lin >= 63508 {
        252
    } else if lin >= 62935 {
        251
    } else if lin >= 62366 {
        250
    } else if lin >= 61799 {
        249
    } else if lin >= 61236 {
        248
    } else if lin >= 60675 {
        247
    } else if lin >= 60118 {
        246
    } else if lin >= 59564 {
        245
    } else if lin >= 59012 {
        244
    } else if lin >= 58464 {
        243
    } else if lin >= 57918 {
        242
    } else if lin >= 57376 {
        241
    } else if lin >= 56836 {
        240
    } else if lin >= 56300 {
        239
    } else if lin >= 55766 {
        238
    } else if lin >= 55235 {
        237
    } else if lin >= 54708 {
        236
    } else if lin >= 54183 {
        235
    } else if lin >= 53661 {
        234
    } else if lin >= 53142 {
        233
    } else if lin >= 52627 {
        232
    } else if lin >= 52114 {
        231
    } else if lin >= 51604 {
        230
    } else if lin >= 51096 {
        229
    } else if lin >= 50592 {
        228
    } else if lin >= 50091 {
        227
    } else if lin >= 49593 {
        226
    } else if lin >= 49097 {
        225
    } else if lin >= 48605 {
        224
    } else if lin >= 48115 {
        223
    } else if lin >= 47628 {
        222
    } else if lin >= 47144 {
        221
    } else if lin >= 46663 {
        220
    } else if lin >= 46185 {
        219
    } else if lin >= 45710 {
        218
    } else if lin >= 45238 {
        217
    } else if lin >= 44768 {
        216
    } else if lin >= 44301 {
        215
    } else if lin >= 43838 {
        214
    } else if lin >= 43377 {
        213
    } else if lin >= 42918 {
        212
    } else if lin >= 42463 {
        211
    } else if lin >= 42011 {
        210
    } else if lin >= 41561 {
        209
    } else if lin >= 41114 {
        208
    } else if lin >= 40670 {
        207
    } else if lin >= 40229 {
        206
    } else if lin >= 39790 {
        205
    } else if lin >= 39355 {
        204
    } else if lin >= 38922 {
        203
    } else if lin >= 38492 {
        202
    } else if lin >= 38065 {
        201
    } else if lin >= 37640 {
        200
    } else if lin >= 37219 {
        199
    } else if lin >= 36800 {
        198
    } else if lin >= 36384 {
        197
    } else if lin >= 35970 {
        196
    } else if lin >= 35560 {
        195
    } else if lin >= 35152 {
        194
    } else if lin >= 34747 {
        193
    } else if lin >= 34344 {
        192
    } else if lin >= 33944 {
        191
    } else if lin >= 33547 {
        190
    } else if lin >= 33153 {
        189
    } else if lin >= 32762 {
        188
    } else if lin >= 32373 {
        187
    } else if lin >= 31987 {
        186
    } else if lin >= 31603 {
        185
    } else if lin >= 31223 {
        184
    } else if lin >= 30845 {
        183
    } else if lin >= 30469 {
        182
    } else if lin >= 30097 {
        181
    } else if lin >= 29727 {
        180
    } else if lin >= 29359 {
        179
    } else if lin >= 28995 {
        178
    } else if lin >= 28633 {
        177
    } else if lin >= 28273 {
        176
    } else if lin >= 27917 {
        175
    } else if lin >= 27563 {
        174
    } else if lin >= 27211 {
        173
    } else if lin >= 26862 {
        172
    } else if lin >= 26516 {
        171
    } else if lin >= 26173 {
        170
    } else if lin >= 25832 {
        169
    } else if lin >= 25493 {
        168
    } else if lin >= 25158 {
        167
    } else if lin >= 24824 {
        166
    } else if lin >= 24494 {
        165
    } else if lin >= 24166 {
        164
    } else if lin >= 23840 {
        163
    } else if lin >= 23518 {
        162
    } else if lin >= 23197 {
        161
    } else if lin >= 22880 {
        160
    } else if lin >= 22564 {
        159
    } else if lin >= 22252 {
        158
    } else if lin >= 21942 {
        157
    } else if lin >= 21634 {
        156
    } else if lin >= 21329 {
        155
    } else if lin >= 21027 {
        154
    } else if lin >= 20727 {
        153
    } else if lin >= 20429 {
        152
    } else if lin >= 20134 {
        151
    } else if lin >= 19842 {
        150
    } else if lin >= 19552 {
        149
    } else if lin >= 19264 {
        148
    } else if lin >= 18980 {
        147
    } else if lin >= 18697 {
        146
    } else if lin >= 18417 {
        145
    } else if lin >= 18139 {
        144
    } else if lin >= 17864 {
        143
    } else if lin >= 17592 {
        142
    } else if lin >= 17321 {
        141
    } else if lin >= 17054 {
        140
    } else if lin >= 16788 {
        139
    } else if lin >= 16525 {
        138
    } else if lin >= 16265 {
        137
    } else if lin >= 16007 {
        136
    } else if lin >= 15751 {
        135
    } else if lin >= 15498 {
        134
    } else if lin >= 15247 {
        133
    } else if lin >= 14998 {
        132
    } else if lin >= 14752 {
        131
    } else if lin >= 14508 {
        130
    } else if lin >= 14267 {
        129
    } else if lin >= 14028 {
        128
    } else if lin >= 13791 {
        127
    } else if lin >= 13557 {
        126
    } else if lin >= 13325 {
        125
    } else if lin >= 13095 {
        124
    } else if lin >= 12868 {
        123
    } else if lin >= 12643 {
        122
    } else if lin >= 12420 {
        121
    } else if lin >= 12199 {
        120
    } else if lin >= 11981 {
        119
    } else if lin >= 11765 {
        118
    } else if lin >= 11552 {
        117
    } else if lin >= 11341 {
        116
    } else if lin >= 11132 {
        115
    } else if lin >= 10925 {
        114
    } else if lin >= 10720 {
        113
    } else if lin >= 10518 {
        112
    } else if lin >= 10318 {
        111
    } else if lin >= 10121 {
        110
    } else if lin >= 9925 {
        109
    } else if lin >= 9732 {
        108
    } else if lin >= 9541 {
        107
    } else if lin >= 9352 {
        106
    } else if lin >= 9165 {
        105
    } else if lin >= 8981 {
        104
    } else if lin >= 8798 {
        103
    } else if lin >= 8618 {
        102
    } else if lin >= 8440 {
        101
    } else if lin >= 8265 {
        100
    } else if lin >= 8091 {
        99
    } else if lin >= 7919 {
        98
    } else if lin >= 7750 {
        97
    } else if lin >= 7583 {
        96
    } else if lin >= 7418 {
        95
    } else if lin >= 7255 {
        94
    } else if lin >= 7094 {
        93
    } else if lin >= 6935 {
        92
    } else if lin >= 6778 {
        91
    } else if lin >= 6624 {
        90
    } else if lin >= 6471 {
        89
    } else if lin >= 6321 {
        88
    } else if lin >= 6173 {
        87
    } else if lin >= 6026 {
        86
    } else if lin >= 5882 {
        85
    } else if lin >= 5740 {
        84
    } else if lin >= 5599 {
        83
    } else if lin >= 5461 {
        82
    } else if lin >= 5325 {
        81
    } else if lin >= 5191 {
        80
    } else if lin >= 5059 {
        79
    } else if lin >= 4928 {
        78
    } else if lin >= 4800 {
        77
    } else if lin >= 4674 {
        76
    } else if lin >= 4550 {
        75
    } else if lin >= 4427 {
        74
    } else if lin >= 4307 {
        73
    } else if lin >= 4188 {
        72
    } else if lin >= 4072 {
        71
    } else if lin >= 3957 {
        70
    } else if lin >= 3844 {
        69
    } else if lin >= 3734 {
        68
    } else if lin >= 3625 {
        67
    } else if lin >= 3518 {
        66
    } else if lin >= 3412 {
        65
    } else if lin >= 3309 {
        64
    } else if lin >= 3208 {
        63
    } else if lin >= 3108 {
        62
    } else if lin >= 3010 {
        61
    } else if lin >= 2914 {
        60
    } else if lin >= 2820 {
        59
    } else if lin >= 2727 {
        58
    } else if lin >= 2637 {
        57
    } else if lin >= 2548 {
        56
    } else if lin >= 2461 {
        55
    } else if lin >= 2376 {
        54
    } else if lin >= 2292 {
        53
    } else if lin >= 2210 {
        52
    } else if lin >= 2130 {
        51
    } else if lin >= 2052 {
        50
    } else if lin >= 1975 {
        49
    } else if lin >= 1900 {
        48
    } else if lin >= 1827 {
        47
    } else if lin >= 1755 {
        46
    } else if lin >= 1685 {
        45
    } else if lin >= 1617 {
        44
    } else if lin >= 1551 {
        43
    } else if lin >= 1486 {
        42
    } else if lin >= 1422 {
        41
    } else if lin >= 1360 {
        40
    } else if lin >= 1300 {
        39
    } else if lin >= 1242 {
        38
    } else if lin >= 1185 {
        37
    } else if lin >= 1129 {
        36
    } else if lin >= 1075 {
        35
    } else if lin >= 1023 {
        34
    } else if lin >= 972 {
        33
    } else if lin >= 923 {
        32
    } else if lin >= 875 {
        31
    } else if lin >= 828 {
        30
    } else if lin >= 783 {
        29
    } else if lin >= 740 {
        28
    } else if lin >= 698 {
        27
    } else if lin >= 657 {
        26
    } else if lin >= 618 {
        25
    } else if lin >= 580 {
        24
    } else if lin >= 544 {
        23
    } else if lin >= 509 {
        22
    } else if lin >= 475 {
        21
    } else if lin >= 443 {
        20
    } else if lin >= 412 {
        19
    } else if lin >= 382 {
        18
    } else if lin >= 354 {
        17
    } else if lin >= 327 {
        16
    } else if lin >= 301 {
        15
    } else if lin >= 276 {
        14
    } else if lin >= 253 {
        13
    } else if lin >= 230 {
        12
    } else if lin >= 209 {
        11
    } else if lin >= 189 {
        10
    } else if lin >= 170 {
        9
    } else if lin >= 150 {
        8
    } else if lin >= 130 {
        7
    } else if lin >= 110 {
        6
    } else if lin >= 90 {
        5
    } else if lin >= 70 {
        4
    } else if lin >= 50 {
        3
    } else if lin >= 30 {
        2
    } else if lin >= 10 {
        1
    } else {
        0
    }
}

/// Executable form of `srgb_u8`.
pub fn srgb_quantize(lin: u32) -> (r: u8)
    ensures
        r == srgb_u8(lin as int),
{
    if lin >= 65244 {
        255
    } else if lin >= 64662 {
        254
    } else if lin >= 64083 {
        253
    } else if lin >= 63508 {
        252
    } else if lin >= 62935 {
        251
    } else if lin >= 62366 {
        250
    } else if lin >= 61799 {
        249
    } else if lin >= 61236 {
        248
    } else if lin >= 60675 {
        247
    } else if lin >= 60118 {
        246
    } else if lin >= 59564 {
        245
    } else if lin >= 59012 {
        244
    } else if lin >= 58464 {
        243
    } else if lin >= 57918 {
        242
    } else if lin >= 57376 {
        241
    } else if lin >= 56836 {
        240
    } else if lin >= 56300 {
        239
    } else if lin >= 55766 {
        238
    } else if lin >= 55235 {
        237
    } else if lin >= 54708 {
        236
    } else if lin >= 54183 {
        235
    } else if lin >= 53661 {
        234
    } else if lin >= 53142 {
        233
    } else if lin >= 52627 {
        232
    } else if lin >= 52114 {
        231
    } else if lin >= 51604 {
        230
    } else if lin >= 51096 {
        229
    } else if lin >= 50592 {
        228
    } else if lin >= 50091 {
        227
    } else if lin >= 49593 {
        226
    } else if lin >= 49097 {
        225
    } else if lin >= 48605 {
        224
    } else if lin >= 48115 {
        223
    } else if lin >= 47628 {
        222
    } else if lin >= 47144 {
        221
    } else if lin >= 46663 {
        220
    } else if lin >= 46185 {
        219
    } else if lin >= 45710 {
        218
    } else if lin >= 45238 {
        217
    } else if lin >= 44768 {
        216
    } else if lin >= 44301 {
        215
    } else if lin >= 43838 {
        214
    } else if lin >= 43377 {
        213
    } else if lin >= 42918 {
        212
    } else if lin >= 42463 {
        211
    } else if lin >= 42011 {
        210
    } else if lin >= 41561 {
        209
    } else if lin >= 41114 {
        208
    } else if lin >= 40670 {
        207
    } else if lin >= 40229 {
        206
    } else if lin >= 39790 {
        205
    } else if lin >= 39355 {
        204
    } else if lin >= 38922 {
        203
    } else if lin >= 38492 {
        202
    } else if lin >= 38065 {
        201
    } else if lin >= 37640 {
        200
    } else if lin >= 37219 {
        199
    } else if lin >= 36800 {
        198
    } else if lin >= 36384 {
        197
    } else if lin >= 35970 {
        196
    } else if lin >= 35560 {
        195
    } else if lin >= 35152 {
        194
    } else if lin >= 34747 {
        193
    } else if lin >= 34344 {
        192
    } else if lin >= 33944 {
        191
    } else if lin >= 33547 {
        190
    } else if lin >= 33153 {
        189
    } else if lin >= 32762 {
        188
    } else if lin >= 32373 {
        187
    } else if lin >= 31987 {
        186
    } else if lin >= 31603 {
        185
    } else if lin >= 31223 {
        184
    } else if lin >= 30845 {
        183
    } else if lin >= 30469 {
        182
    } else if lin >= 30097 {
        181
    } else if lin >= 29727 {
        180
    } else if lin >= 29359 {
        179
    } else if lin >= 28995 {
        178
    } else if lin >= 28633 {
        177
    } else if lin >= 28273 {
        176
    } else if lin >= 27917 {
        175
    } else if lin >= 27563 {
        174
    } else if lin >= 27211 {
        173
    } else if lin >= 26862 {
        172
    } else if lin >= 26516 {
        171
    } else if lin >= 26173 {
        170
    } else if lin >= 25832 {
        169
    } else if lin >= 25493 {
        168
    } else if lin >= 25158 {
        167
    } else if lin >= 24824 {
        166
    } else if lin >= 24494 {
        165
    } else if lin >= 24166 {
        164
    } else if lin >= 23840 {
        163
    } else if lin >= 23518 {
        162
    } else if lin >= 23197 {
        161
    } else if lin >= 22880 {
        160
    } else if lin >= 22564 {
        159
    } else if lin >= 22252 {
        158
    } else if lin >= 21942 {
        157
    } else if lin >= 21634 {
        156
    } else if lin >= 21329 {
        155
    } else if lin >= 21027 {
        154
    } else if lin >= 20727 {
        153
    } else if lin >= 20429 {
        152
    } else if lin >= 20134 {
        151
    } else if lin >= 19842 {
        150
    } else if lin >= 19552 {
        149
    } else if lin >= 19264 {
        148
    } else if lin >= 18980 {
        147
    } else if lin >= 18697 {
        146
    } else if lin >= 18417 {
        145
    } else if lin >= 18139 {
        144
    } else if lin >= 17864 {
        143
    } else if lin >= 17592 {
        142
    } else if lin >= 17321 {
        141
    } else if lin >= 17054 {
        140
    } else if lin >= 16788 {
        139
    } else if lin >= 16525 {
        138
    } else if lin >= 16265 {
        137
    } else if lin >= 16007 {
        136
    } else if lin >= 15751 {
        135
    } else if lin >= 15498 {
        134
    } else if lin >= 15247 {
        133
    } else if lin >= 14998 {
        132
    } else if lin >= 14752 {
        131
    } else if lin >= 14508 {
        130
    } else if lin >= 14267 {
        129
    } else if lin >= 14028 {
        128
    } else if lin >= 13791 {
        127
    } else if lin >= 13557 {
        126
    } else if lin >= 13325 {
        125
    } else if lin >= 13095 {
        124
    } else if lin >= 12868 {
        123
    } else if lin >= 12643 {
        122
    } else if lin >= 12420 {
        121
    } else if lin >= 12199 {
        120
    } else if lin >= 11981 {
        119
    } else if lin >= 11765 {
        118
    } else if lin >= 11552 {
        117
    } else if lin >= 11341 {
        116
    } else if lin >= 11132 {
        115
    } else if lin >= 10925 {
        114
    } else if lin >= 10720 {
        113
    } else if lin >= 10518 {
        112
    } else if lin >= 10318 {
        111
    } else if lin >= 10121 {
        110
    } else if lin >= 9925 {
        109
    } else if lin >= 9732 {
        108
    } else if lin >= 9541 {
        107
    } else if lin >= 9352 {
        106
    } else if lin >= 9165 {
        105
    } else if lin >= 8981 {
        104
    } else if lin >= 8798 {
        103
    } else if lin >= 8618 {
        102
    } else if lin >= 8440 {
        101
    } else if lin >= 8265 {
        100
    } else if lin >= 8091 {
        99
    } else if lin >= 7919 {
        98
    } else if lin >= 7750 {
        97
    } else if lin >= 7583 {
        96
    } else if lin >= 7418 {
        95
    } else if lin >= 7255 {
        94
    } else if lin >= 7094 {
        93
    } else if lin >= 6935 {
        92
    } else if lin >= 6778 {
        91
    } else if lin >= 6624 {
        90
    } else if lin >= 6471 {
        89
    } else if lin >= 6321 {
        88
    } else if lin >= 6173 {
        87
    } else if lin >= 6026 {
        86
    } else if lin >= 5882 {
        85
    } else if lin >= 5740 {
        84
    } else if lin >= 5599 {
        83
    } else if lin >= 5461 {
        82
    } else if lin >= 5325 {
        81
    } else if lin >= 5191 {
        80
    } else if lin >= 5059 {
        79
    } else if lin >= 4928 {
        78
    } else if lin >= 4800 {
        77
    } else if lin >= 4674 {
        76
    } else if lin >= 4550 {
        75
    } else if lin >= 4427 {
        74
    } else if lin >= 4307 {
        73
    } else if lin >= 4188 {
        72
    } else if lin >= 4072 {
        71
    } else if lin >= 3957 {
        70
    } else if lin >= 3844 {
        69
    } else if lin >= 3734 {
        68
    } else if lin >= 3625 {
        67
    } else if lin >= 3518 {
        66
    } else if lin >= 3412 {
        65
    } else if lin >= 3309 {
        64
    } else if lin >= 3208 {
        63
    } else if lin >= 3108 {
        62
    } else if lin >= 3010 {
        61
    } else if lin >= 2914 {
        60
    } else if lin >= 2820 {
        59
    } else if lin >= 2727 {
        58
    } else if lin >= 2637 {
        57
    } else if lin >= 2548 {
        56
    } else if lin >= 2461 {
        55
    } else if lin >= 2376 {
        54
    } else if lin >= 2292 {
        53
    } else if lin >= 2210 {
        52
    } else if lin >= 2130 {
        51
    } else if lin >= 2052 {
        50
    } else if lin >= 1975 {
        49
    } else if lin >= 1900 {
        48
    } else if lin >= 1827 {
        47
    } else if lin >= 1755 {
        46
    } else if lin >= 1685 {
        45
    } else if lin >= 1617 {
        44
    } else if lin >= 1551 {
        43
    } else if lin >= 1486 {
        42
    } else if lin >= 1422 {
        41
    } else if lin >= 1360 {
        40
    } else if lin >= 1300 {
        39
    } else if lin >= 1242 {
        38
    } else if lin >= 1185 {
        37
    } else if lin >= 1129 {
        36
    } else if lin >= 1075 {
        35
    } else if lin >= 1023 {
        34
    } else if lin >= 972 {
        33
    } else if lin >= 923 {
        32
    } else if lin >= 875 {
        31
    } else if lin >= 828 {
        30
    } else if lin >= 783 {
        29
    } else if lin >= 740 {
        28
    } else if lin >= 698 {
        27
    } else if lin >= 657 {
        26
    } else if lin >= 618 {
        25
    } else if lin >= 580 {
        24
    } else if lin >= 544 {
        23
    } else if lin >= 509 {
        22
    } else if lin >= 475 {
        21
    } else if lin >= 443 {
        20
    } else if lin >= 412 {
        19
    } else if lin >= 382 {
        18
    } else if lin >= 354 {
        17
    } else if lin >= 327 {
        16
    } else if lin >= 301 {
        15
    } else if lin >= 276 {
        14
    } else if lin >= 253 {
        13
    } else if lin >= 230 {
        12
    } else if lin >= 209 {
        11
    } else if lin >= 189 {
        10
    } else if lin >= 170 {
        9
    } else if lin >= 150 {
        8
    } else if lin >= 130 {
        7
    } else if lin >= 110 {
        6
    } else if lin >= 90 {
        5
    } else if lin >= 70 {
        4
    } else if lin >= 50 {
        3
    } else if lin >= 30 {
        2
    } else if lin >= 10 {
        1
    } else {
        0
    }
}

} // verus!
