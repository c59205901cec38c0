//! Arithmetic in GF(2^8) through logarithm and antilogarithm tables.
//!
//! The tables are built at run time by repeated multiplication by the
//! generator `x` modulo the primitive polynomial 0x11d; the spec functions
//! `exp_lit` and `log_lit` below give their contents in closed form.

use vstd::prelude::*;

verus! {

/// Powers of the generator element `x` in GF(2^8) modulo 0x11d: entry `i` is `x^i`, for `i < 255`.
#[verifier::opaque]
pub open spec fn exp_lit(i: u8) -> u8 {
    if i == 0 { 1
    } else if i == 1 { 2
    } else if i == 2 { 4
    } else if i == 3 { 8
    } else if i == 4 { 16
    } else if i == 5 { 32
    } else if i == 6 { 64
    } else if i == 7 { 128
    } else if i == 8 { 29
    } else if i == 9 { 58
    } else if i == 10 { 116
    } else if i == 11 { 232
    } else if i == 12 { 205
    } else if i == 13 { 135
    } else if i == 14 { 19
    } else if i == 15 { 38
    } else if i == 16 { 76
    } else if i == 17 { 152
    } else if i == 18 { 45
    } else if i == 19 { 90
    } else if i == 20 { 180
    } else if i == 21 { 117
    } else if i == 22 { 234
    } else if i == 23 { 201
    } else if i == 24 { 143
    } else if i == 25 { 3
    } else if i == 26 { 6
    } else if i == 27 { 12
    } else if i == 28 { 24
    } else if i == 29 { 48
    } else if i == 30 { 96
    } else if i == 31 { 192
    } else if i == 32 { 157
    } else if i == 33 { 39
    } else if i == 34 { 78
    } else if i == 35 { 156
    } else if i == 36 { 37
    } else if i == 37 { 74
    } else if i == 38 { 148
    } else if i == 39 { 53
    } else if i == 40 { 106
    } else if i == 41 { 212
    } else if i == 42 { 181
    } else if i == 43 { 119
    } else if i == 44 { 238
    } else if i == 45 { 193
    } else if i == 46 { 159
    } else if i == 47 { 35
    } else if i == 48 { 70
    } else if i == 49 { 140
    } else if i == 50 { 5
    } else if i == 51 { 10
    } else if i == 52 { 20
    } else if i == 53 { 40
    } else if i == 54 { 80
    } else if i == 55 { 160
    } else if i == 56 { 93
    } else if i == 57 { 186
    } else if i == 58 { 105
    } else if i == 59 { 210
    } else if i == 60 { 185
    } else if i == 61 { 111
    } else if i == 62 { 222
    } else if i == 63 { 161
    } else if i == 64 { 95
    } else if i == 65 { 190
    } else if i == 66 { 97
    } else if i == 67 { 194
    } else if i == 68 { 153
    } else if i == 69 { 47
    } else if i == 70 { 94
    } else if i == 71 { 188
    } else if i == 72 { 101
    } else if i == 73 { 202
    } else if i == 74 { 137
    } else if i == 75 { 15
    } else if i == 76 { 30
    } else if i == 77 { 60
    } else if i == 78 { 120
    } else if i == 79 { 240
    } else if i == 80 { 253
    } else if i == 81 { 231
    } else if i == 82 { 211
    } else if i == 83 { 187
    } else if i == 84 { 107
    } else if i == 85 { 214
    } else if i == 86 { 177
    } else if i == 87 { 127
    } else if i == 88 { 254
    } else if i == 89 { 225
    } else if i == 90 { 223
    } else if i == 91 { 163
    } else if i == 92 { 91
    } else if i == 93 { 182
    } else if i == 94 { 113
    } else if i == 95 { 226
    } else if i == 96 { 217
    } else if i == 97 { 175
    } else if i == 98 { 67
    } else if i == 99 { 134
    } else if i == 100 { 17
    } else if i == 101 { 34
    } else if i == 102 { 68
    } else if i == 103 { 136
    } else if i == 104 { 13
    } else if i == 105 { 26
    } else if i == 106 { 52
    } else if i == 107 { 104
    } else if i == 108 { 208
    } else if i == 109 { 189
    } else if i == 110 { 103
    } else if i == 111 { 206
    } else if i == 112 { 129
    } else if i == 113 { 31
    } else if i == 114 { 62
    } else if i == 115 { 124
    } else if i == 116 { 248
    } else if i == 117 { 237
    } else if i == 118 { 199
    } else if i == 119 { 147
    } else if i == 120 { 59
    } else if i == 121 { 118
    } else if i == 122 { 236
    } else if i == 123 { 197
    } else if i == 124 { 151
    } else if i == 125 { 51
    } else if i == 126 { 102
    } else if i == 127 { 204
    } else if i == 128 { 133
    } else if i == 129 { 23
    } else if i == 130 { 46
    } else if i == 131 { 92
    } else if i == 132 { 184
    } else if i == 133 { 109
    } else if i == 134 { 218
    } else if i == 135 { 169
    } else if i == 136 { 79
    } else if i == 137 { 158
    } else if i == 138 { 33
    } else if i == 139 { 66
    } else if i == 140 { 132
    } else if i == 141 { 21
    } else if i == 142 { 42
    } else if i == 143 { 84
    } else if i == 144 { 168
    } else if i == 145 { 77
    } else if i == 146 { 154
    } else if i == 147 { 41
    } else if i == 148 { 82
    } else if i == 149 { 164
    } else if i == 150 { 85
    } else if i == 151 { 170
    } else if i == 152 { 73
    } else if i == 153 { 146
    } else if i == 154 { 57
    } else if i == 155 { 114
    } else if i == 156 { 228
    } else if i == 157 { 213
    } else if i == 158 { 183
    } else if i == 159 { 115
    } else if i == 160 { 230
    } else if i == 161 { 209
    } else if i == 162 { 191
    } else if i == 163 { 99
    } else if i == 164 { 198
    } else if i == 165 { 145
    } else if i == 166 { 63
    } else if i == 167 { 126
    } else if i == 168 { 252
    } else if i == 169 { 229
    } else if i == 170 { 215
    } else if i == 171 { 179
    } else if i == 172 { 123
    } else if i == 173 { 246
    } else if i == 174 { 241
    } else if i == 175 { 255
    } else if i == 176 { 227
    } else if i == 177 { 219
    } else if i == 178 { 171
    } else if i == 179 { 75
    } else if i == 180 { 150
    } else if i == 181 { 49
    } else if i == 182 { 98
    } else if i == 183 { 196
    } else if i == 184 { 149
    } else if i == 185 { 55
    } else if i == 186 { 110
    } else if i == 187 { 220
    } else if i == 188 { 165
    } else if i == 189 { 87
    } else if i == 190 { 174
    } else if i == 191 { 65
    } else if i == 192 { 130
    } else if i == 193 { 25
    } else if i == 194 { 50
    } else if i == 195 { 100
    } else if i == 196 { 200
    } else if i == 197 { 141
    } else if i == 198 { 7
    } else if i == 199 { 14
    } else if i == 200 { 28
    } else if i == 201 { 56
    } else if i == 202 { 112
    } else if i == 203 { 224
    } else if i == 204 { 221
    } else if i == 205 { 167
    } else if i == 206 { 83
    } else if i == 207 { 166
    } else if i == 208 { 81
    } else if i == 209 { 162
    } else if i == 210 { 89
    } else if i == 211 { 178
    } else if i == 212 { 121
    } else if i == 213 { 242
    } else if i == 214 { 249
    } else if i == 215 { 239
    } else if i == 216 { 195
    } else if i == 217 { 155
    } else if i == 218 { 43
    } else if i == 219 { 86
    } else if i == 220 { 172
    } else if i == 221 { 69
    } else if i == 222 { 138
    } else if i == 223 { 9
    } else if i == 224 { 18
    } else if i == 225 { 36
    } else if i == 226 { 72
    } else if i == 227 { 144
    } else if i == 228 { 61
    } else if i == 229 { 122
    } else if i == 230 { 244
    } else if i == 231 { 245
    } else if i == 232 { 247
    } else if i == 233 { 243
    } else if i == 234 { 251
    } else if i == 235 { 235
    } else if i == 236 { 203
    } else if i == 237 { 139
    } else if i == 238 { 11
    } else if i == 239 { 22
    } else if i == 240 { 44
    } else if i == 241 { 88
    } else if i == 242 { 176
    } else if i == 243 { 125
    } else if i == 244 { 250
    } else if i == 245 { 233
    } else if i == 246 { 207
    } else if i == 247 { 131
    } else if i == 248 { 27
    } else if i == 249 { 54
    } else if i == 250 { 108
    } else if i == 251 { 216
    } else if i == 252 { 173
    } else if i == 253 { 71
    } else if i == 254 { 142
    } else { 0 }
}

/// Discrete logarithm base `x` in GF(2^8) modulo 0x11d: for nonzero `i`, the unique `k < 255` with `x^k == i`; 0 for 0.
#[verifier::opaque]
pub open spec fn log_lit(i: u8) -> u8 {
    if i == 0 { 0
    } else if i == 1 { 0
    } else if i == 2 { 1
    } else if i == 3 { 25
    } else if i == 4 { 2
    } else if i == 5 { 50
    } else if i == 6 { 26
    } else if i == 7 { 198
    } else if i == 8 { 3
    } else if i == 9 { 223
    } else if i == 10 { 51
    } else if i == 11 { 238
    } else if i == 12 { 27
    } else if i == 13 { 104
    } else if i == 14 { 199
    } else if i == 15 { 75
    } else if i == 16 { 4
    } else if i == 17 { 100
    } else if i == 18 { 224
    } else if i == 19 { 14
    } else if i == 20 { 52
    } else if i == 21 { 141
    } else if i == 22 { 239
    } else if i == 23 { 129
    } else if i == 24 { 28
    } else if i == 25 { 193
    } else if i == 26 { 105
    } else if i == 27 { 248
    } else if i == 28 { 200
    } else if i == 29 { 8
    } else if i == 30 { 76
    } else if i == 31 { 113
    } else if i == 32 { 5
    } else if i == 33 { 138
    } else if i == 34 { 101
    } else if i == 35 { 47
    } else if i == 36 { 225
    } else if i == 37 { 36
    } else if i == 38 { 15
    } else if i == 39 { 33
    } else if i == 40 { 53
    } else if i == 41 { 147
    } else if i == 42 { 142
    } else if i == 43 { 218
    } else if i == 44 { 240
    } else if i == 45 { 18
    } else if i == 46 { 130
    } else if i == 47 { 69
    } else if i == 48 { 29
    } else if i == 49 { 181
    } else if i == 50 { 194
    } else if i == 51 { 125
    } else if i == 52 { 106
    } else if i == 53 { 39
    } else if i == 54 { 249
    } else if i == 55 { 185
    } else if i == 56 { 201
    } else if i == 57 { 154
    } else if i == 58 { 9
    } else if i == 59 { 120
    } else if i == 60 { 77
    } else if i == 61 { 228
    } else if i == 62 { 114
    } else if i == 63 { 166
    } else if i == 64 { 6
    } else if i == 65 { 191
    } else if i == 66 { 139
    } else if i == 67 { 98
    } else if i == 68 { 102
    } else if i == 69 { 221
    } else if i == 70 { 48
    } else if i == 71 { 253
    } else if i == 72 { 226
    } else if i == 73 { 152
    } else if i == 74 { 37
    } else if i == 75 { 179
    } else if i == 76 { 16
    } else if i == 77 { 145
    } else if i == 78 { 34
    } else if i == 79 { 136
    } else if i == 80 { 54
    } else if i == 81 { 208
    } else if i == 82 { 148
    } else if i == 83 { 206
    } else if i == 84 { 143
    } else if i == 85 { 150
    } else if i == 86 { 219
    } else if i == 87 { 189
    } else if i == 88 { 241
    } else if i == 89 { 210
    } else if i == 90 { 19
    } else if i == 91 { 92
    } else if i == 92 { 131
    } else if i == 93 { 56
    } else if i == 94 { 70
    } else if i == 95 { 64
    } else if i == 96 { 30
    } else if i == 97 { 66
    } else if i == 98 { 182
    } else if i == 99 { 163
    } else if i == 100 { 195
    } else if i == 101 { 72
    } else if i == 102 { 126
    } else if i == 103 { 110
    } else if i == 104 { 107
    } else if i == 105 { 58
    } else if i == 106 { 40
    } else if i == 107 { 84
    } else if i == 108 { 250
    } else if i == 109 { 133
    } else if i == 110 { 186
    } else if i == 111 { 61
    } else if i == 112 { 202
    } else if i == 113 { 94
    } else if i == 114 { 155
    } else if i == 115 { 159
    } else if i == 116 { 10
    } else if i == 117 { 21
    } else if i == 118 { 121
    } else if i == 119 { 43
    } else if i == 120 { 78
    } else if i == 121 { 212
    } else if i == 122 { 229
    } else if i == 123 { 172
    } else if i == 124 { 115
    } else if i == 125 { 243
    } else if i == 126 { 167
    } else if i == 127 { 87
    } else if i == 128 { 7
    } else if i == 129 { 112
    } else if i == 130 { 192
    } else if i == 131 { 247
    } else if i == 132 { 140
    } else if i == 133 { 128
    } else if i == 134 { 99
    } else if i == 135 { 13
    } else if i == 136 { 103
    } else if i == 137 { 74
    } else if i == 138 { 222
    } else if i == 139 { 237
    } else if i == 140 { 49
    } else if i == 141 { 197
    } else if i == 142 { 254
    } else if i == 143 { 24
    } else if i == 144 { 227
    } else if i == 145 { 165
    } else if i == 146 { 153
    } else if i == 147 { 119
    } else if i == 148 { 38
    } else if i == 149 { 184
    } else if i == 150 { 180
    } else if i == 151 { 124
    } else if i == 152 { 17
    } else if i == 153 { 68
    } else if i == 154 { 146
    } else if i == 155 { 217
    } else if i == 156 { 35
    } else if i == 157 { 32
    } else if i == 158 { 137
    } else if i == 159 { 46
    } else if i == 160 { 55
    } else if i == 161 { 63
    } else if i == 162 { 209
    } else if i == 163 { 91
    } else if i == 164 { 149
    } else if i == 165 { 188
    } else if i == 166 { 207
    } else if i == 167 { 205
    } else if i == 168 { 144
    } else if i == 169 { 135
    } else if i == 170 { 151
    } else if i == 171 { 178
    } else if i == 172 { 220
    } else if i == 173 { 252
    } else if i == 174 { 190
    } else if i == 175 { 97
    } else if i == 176 { 242
    } else if i == 177 { 86
    } else if i == 178 { 211
    } else if i == 179 { 171
    } else if i == 180 { 20
    } else if i == 181 { 42
    } else if i == 182 { 93
    } else if i == 183 { 158
    } else if i == 184 { 132
    } else if i == 185 { 60
    } else if i == 186 { 57
    } else if i == 187 { 83
    } else if i == 188 { 71
    } else if i == 189 { 109
    } else if i == 190 { 65
    } else if i == 191 { 162
    } else if i == 192 { 31
    } else if i == 193 { 45
    } else if i == 194 { 67
    } else if i == 195 { 216
    } else if i == 196 { 183
    } else if i == 197 { 123
    } else if i == 198 { 164
    } else if i == 199 { 118
    } else if i == 200 { 196
    } else if i == 201 { 23
    } else if i == 202 { 73
    } else if i == 203 { 236
    } else if i == 204 { 127
    } else if i == 205 { 12
    } else if i == 206 { 111
    } else if i == 207 { 246
    } else if i == 208 { 108
    } else if i == 209 { 161
    } else if i == 210 { 59
    } else if i == 211 { 82
    } else if i == 212 { 41
    } else if i == 213 { 157
    } else if i == 214 { 85
    } else if i == 215 { 170
    } else if i == 216 { 251
    } else if i == 217 { 96
    } else if i == 218 { 134
    } else if i == 219 { 177
    } else if i == 220 { 187
    } else if i == 221 { 204
    } else if i == 222 { 62
    } else if i == 223 { 90
    } else if i == 224 { 203
    } else if i == 225 { 89
    } else if i == 226 { 95
    } else if i == 227 { 176
    } else if i == 228 { 156
    } else if i == 229 { 169
    } else if i == 230 { 160
    } else if i == 231 { 81
    } else if i == 232 { 11
    } else if i == 233 { 245
    } else if i == 234 { 22
    } else if i == 235 { 235
    } else if i == 236 { 122
    } else if i == 237 { 117
    } else if i == 238 { 44
    } else if i == 239 { 215
    } else if i == 240 { 79
    } else if i == 241 { 174
    } else if i == 242 { 213
    } else if i == 243 { 233
    } else if i == 244 { 230
    } else if i == 245 { 231
    } else if i == 246 { 173
    } else if i == 247 { 232
    } else if i == 248 { 116
    } else if i == 249 { 214
    } else if i == 250 { 244
    } else if i == 251 { 234
    } else if i == 252 { 168
    } else if i == 253 { 80
    } else if i == 254 { 88
    } else if i == 255 { 175
    } else { 0 }
}

/// One step of the table construction: multiply by `x`, reducing modulo 0x11d.
pub open spec fn gf_step(v: u8) -> u8 {
    if v & 0x80u8 != 0u8 {
        (v << 1u8) ^ 0x1du8
    } else {
        v << 1u8
    }
}

/// The construction step as the run-time code performs it, on a 32-bit accumulator.
pub open spec fn gf_step_wide(v: u32) -> u32 {
    if (v << 1u32) & 256u32 != 0u32 {
        (v << 1u32) ^ 0x11du32
    } else {
        v << 1u32
    }
}

/// The wide step agrees with the byte step on bytes.
proof fn lemma_step_wide(v: u32)
    by (bit_vector)
    requires
        v < 256u32,
    ensures
        gf_step_wide(v) < 256u32,
        gf_step_wide(v) == gf_step(v as u8) as u32,
{
}

/// The exponent table is closed under one construction step.
#[verifier::rlimit(100)]
proof fn lemma_exp_lit_step()
    by (bit_vector)
    ensures
        forall|i: u8| i < 254u8 ==> gf_step(#[trigger] exp_lit(i)) == exp_lit((i + 1u8) as u8),
        gf_step(exp_lit(254u8)) == 1u8,
{
}

/// The table starts at `x^0 = 1`.
proof fn lemma_exp_lit_first()
    by (bit_vector)
    ensures
        exp_lit(0u8) == 1u8,
{
}

/// The first 255 powers of the generator are nonzero.
#[verifier::rlimit(100)]
proof fn lemma_exp_lit_nonzero()
    by (bit_vector)
    ensures
        forall|i: u8| i < 255u8 ==> 0u8 < #[trigger] exp_lit(i),
{
}

/// The logarithm table inverts the exponent table on nonzero bytes.
#[verifier::rlimit(100)]
proof fn lemma_log_lit_inverse()
    by (bit_vector)
    ensures
        forall|v: u8| 0u8 < v ==> #[trigger] log_lit(v) < 255u8 && exp_lit(log_lit(v)) == v,
        log_lit(0u8) == 0u8,
{
}

/// The exponent table inverts the logarithm table below 255.
#[verifier::rlimit(100)]
proof fn lemma_exp_lit_inverse()
    by (bit_vector)
    ensures
        forall|i: u8| i < 255u8 ==> #[trigger] log_lit(exp_lit(i)) == i,
{
}


/// The power `x^i` of the generator for any exponent: the powers repeat with period 255.
pub open spec fn gf_exp(i: int) -> u8 {
    exp_lit((i % 255) as u8)
}

/// The logarithm of a byte (0 for 0).
pub open spec fn gf_log(v: u8) -> u8 {
    log_lit(v)
}

/// The facts about the two tables that the rest of the module uses.
pub proof fn lemma_table_facts()
    ensures
        forall|i: u8| i < 254u8 ==> gf_step(#[trigger] exp_lit(i)) == exp_lit((i + 1u8) as u8),
        gf_step(exp_lit(254u8)) == 1u8,
        forall|i: u8| i < 255u8 ==> 0u8 < #[trigger] exp_lit(i),
        forall|v: u8| 0u8 < v ==> #[trigger] log_lit(v) < 255u8 && exp_lit(log_lit(v)) == v,
        log_lit(0u8) == 0u8,
        forall|i: u8| i < 255u8 ==> #[trigger] log_lit(exp_lit(i)) == i,
        exp_lit(0u8) == 1u8,
{
    lemma_exp_lit_first();
    lemma_exp_lit_step();
    lemma_exp_lit_nonzero();
    lemma_log_lit_inverse();
    lemma_exp_lit_inverse();
}

/// One construction step moves from `x^i` to `x^(i+1)`.
proof fn lemma_gf_exp_step(i: int)
    requires
        0 <= i < 255,
    ensures
        gf_step(gf_exp(i)) == gf_exp(i + 1),
{
    lemma_table_facts();
    if i < 254 {
        let b = i as u8;
        assert(gf_exp(i) == exp_lit(b));
        assert(((b + 1u8) as u8) as int == i + 1);
        assert(gf_exp(i + 1) == exp_lit((b + 1u8) as u8));
    } else {
        assert(gf_exp(i) == exp_lit(254u8));
        assert(gf_exp(i + 1) == exp_lit(0u8));
    }
}

/// Recording `log[x^i] = i` extends the partial logarithm table from the first `i` powers to `i + 1`.
proof fn lemma_log_table_step(log: Seq<u8>, i: int)
    requires
        0 <= i < 255,
        log.len() == 256,
        forall|v: int|
            0 <= v < 256 ==> #[trigger] log[v] == (if v != 0 && log_lit(v as u8) < i {
                log_lit(v as u8)
            } else {
                0u8
            }),
    ensures
        ({
            let e = gf_exp(i);
            let new_log = log.update(e as int, i as u8);
            forall|v: int|
                0 <= v < 256 ==> #[trigger] new_log[v] == (if v != 0 && log_lit(v as u8) < i + 1 {
                    log_lit(v as u8)
                } else {
                    0u8
                })
        }),
{
    lemma_table_facts();
    let e = gf_exp(i);
    assert(e == exp_lit(i as u8));
    assert(0 < e);
    assert(log_lit(e) == i as u8);
    let new_log = log.update(e as int, i as u8);
    assert forall|v: int| 0 <= v < 256 implies #[trigger] new_log[v] == (if v != 0 && log_lit(v as u8)
        < i + 1 { log_lit(v as u8) } else { 0u8 }) by {
        if v != e as int && v != 0 {
            let w = v as u8;
            if log_lit(w) == i {
                assert(exp_lit(log_lit(w)) == w);
            }
        }
    }
}

/// Product of two bytes as polynomials over GF(2) modulo `x^8 + x^4 + x^3 + x^2 + 1`:
/// the XOR of `a * x^k` over the bits `k` set in `b`, each power reduced as it is formed.
pub open spec fn pmul(a: u8, b: u8) -> u8 {
    let a1 = gf_step(a);
    let a2 = gf_step(a1);
    let a3 = gf_step(a2);
    let a4 = gf_step(a3);
    let a5 = gf_step(a4);
    let a6 = gf_step(a5);
    let a7 = gf_step(a6);
    (if b & 1u8 != 0u8 { a } else { 0u8 }) ^ (if b & 2u8 != 0u8 { a1 } else { 0u8 }) ^ (if b & 4u8 != 0u8 {
        a2
    } else {
        0u8
    }) ^ (if b & 8u8 != 0u8 { a3 } else { 0u8 }) ^ (if b & 16u8 != 0u8 { a4 } else { 0u8 }) ^ (if b & 32u8
        != 0u8 { a5 } else { 0u8 }) ^ (if b & 64u8 != 0u8 { a6 } else { 0u8 }) ^ (if b & 128u8 != 0u8 {
        a7
    } else {
        0u8
    })
}

/// Multiplying by `x` commutes with the polynomial product.
#[verifier::rlimit(100)]
proof fn lemma_pmul_step(a: u8, b: u8)
    by (bit_vector)
    ensures
        pmul(gf_step(a), b) == gf_step(pmul(a, b)),
{
}

/// One is the identity and zero annihilates, for the polynomial product.
proof fn lemma_pmul_unit(a: u8, b: u8)
    by (bit_vector)
    ensures
        pmul(1u8, b) == b,
        pmul(0u8, b) == 0u8,
        pmul(a, 0u8) == 0u8,
{
}

/// The polynomial product distributes over XOR in its second argument.
#[verifier::rlimit(100)]
proof fn lemma_pmul_distributes(a: u8, b: u8, c: u8)
    by (bit_vector)
    ensures
        pmul(a, b ^ c) == pmul(a, b) ^ pmul(a, c),
{
}

/// One construction step moves from `x^k` to `x^(k+1)`, for any exponent.
proof fn lemma_gf_exp_next(k: nat)
    ensures
        gf_step(gf_exp(k as int)) == gf_exp(k + 1int),
{
    let r = (k % 255) as int;
    assert(r % 255 == r);
    assert(gf_exp(k as int) == gf_exp(r));
    lemma_gf_exp_step(r);
    assert((r + 1) % 255 == (k + 1) % 255) by {
        vstd::arithmetic::div_mod::lemma_add_mod_noop(k as int, 1, 255);
    }
    assert(gf_exp(r + 1) == gf_exp(k + 1int));
}

/// The table product of nonzero `x^i` and `b` is `x^(i + log b)`, as polynomials.
proof fn lemma_pmul_power(i: nat, b: u8)
    requires
        b != 0,
    ensures
        pmul(gf_exp(i as int), b) == gf_exp(i + log_lit(b) as int),
    decreases i,
{
    lemma_log_of(b);
    let lb = log_lit(b) as int;
    if i == 0 {
        lemma_exp_lit_first();
        assert(gf_exp(0) == exp_lit(0u8));
        lemma_pmul_unit(1u8, b);
        assert(lb % 255 == lb);
        assert(gf_exp(lb) == exp_lit(log_lit(b)));
    } else {
        let j = (i - 1) as nat;
        lemma_pmul_power(j, b);
        lemma_gf_exp_next(j);
        lemma_pmul_step(gf_exp(j as int), b);
        lemma_gf_exp_next((j + lb) as nat);
    }
}

/// The table product is the polynomial product.
pub proof fn lemma_mul_is_pmul(gf: &GaloisField, a: u8, b: u8)
    requires
        gf.wf(),
    ensures
        gf.spec_mul(a, b) == pmul(a, b),
{
    lemma_pmul_unit(a, b);
    if a != 0 && b != 0 {
        lemma_log_of(a);
        lemma_log_of(b);
        lemma_mul_nonzero(gf, a, b);
        let la = log_lit(a) as nat;
        lemma_pmul_power(la, b);
        assert(gf_exp(la as int) == a) by {
            assert((la as int) % 255 == la);
        }
    }
}

/// Galois field arithmetic for Reed-Solomon coding.
pub struct GaloisField {
    /// Field size (2^8 = 256)
    pub size: u32,
    /// Generator polynomial
    pub generator: u32,
    /// Logarithm table
    pub log_table: Vec<u8>,
    /// Antilogarithm table
    pub antilog_table: Vec<u8>,
}

impl GaloisField {
    /// Both tables have one entry per byte value, so every lookup is in bounds.
    pub open spec fn tables_sized(&self) -> bool {
        &&& self.log_table@.len() == 256
        &&& self.antilog_table@.len() == 256
    }

    /// The field as `new` builds it: GF(2^8) modulo 0x11d, with the tables holding
    /// the powers of `x` and their logarithms.
    pub open spec fn wf(&self) -> bool {
        &&& self.size == 256
        &&& self.generator == 0x11d
        &&& self.tables_sized()
        &&& forall|i: int| 0 <= i < 256 ==> #[trigger] self.antilog_table@[i] == gf_exp(i)
        &&& forall|v: int| 0 <= v < 256 ==> #[trigger] self.log_table@[v] == gf_log(v as u8)
    }

    /// Product of two bytes as `multiply` computes it from the tables.
    pub open spec fn spec_mul(&self, a: u8, b: u8) -> u8 {
        if a == 0 || b == 0 {
            0
        } else {
            self.antilog_table@[(self.log_table@[a as int] + self.log_table@[b as int]) % 255]
        }
    }

    /// Quotient of two bytes as `divide` computes it from the tables.
    pub open spec fn spec_div(&self, a: u8, b: u8) -> u8 {
        if a == 0 {
            0
        } else {
            self.antilog_table@[(self.log_table@[a as int] - self.log_table@[b as int] + 255) % 255]
        }
    }

    /// Power of a byte as `power` computes it from the tables.
    pub open spec fn spec_pow(&self, base: u8, exp: u8) -> u8 {
        if base == 0 {
            0
        } else {
            self.antilog_table@[(self.log_table@[base as int] * exp) % 255]
        }
    }

    /// Create new Galois Field GF(2^8)
    pub fn new() -> (gf: Self)
        ensures
            gf.wf(),
    {
        let mut gf = Self {
            size: 256,
            generator: 0x11d,
            log_table: vec![0u8; 256],
            antilog_table: vec![0u8; 256],
        };
        gf.build_tables();
        gf
    }

    /// Build logarithm and antilogarithm tables
    #[verifier::rlimit(60)]
    #[verifier::spinoff_prover]
    fn build_tables(&mut self)
        requires
            old(self).tables_sized(),
            old(self).size == 256,
            old(self).generator == 0x11d,
            forall|v: int| 0 <= v < 256 ==> #[trigger] old(self).log_table@[v] == 0,
        ensures
            final(self).wf(),
    {
        let mut val: u32 = 1;
        proof {
            lemma_table_facts();
        }
        for i in 0..255usize
            invariant
                self.tables_sized(),
                self.size == 256,
                self.generator == 0x11d,
                val < 256,
                val as u8 == gf_exp(i as int),
                forall|k: int| 0 <= k < i ==> #[trigger] self.antilog_table@[k] == gf_exp(k),
                forall|v: int|
                    0 <= v < 256 ==> #[trigger] self.log_table@[v] == (if v != 0 && log_lit(v as u8)
                        < i { log_lit(v as u8) } else { 0u8 }),
        {
            let ghost old_log = self.log_table@;
            self.antilog_table.set(i, val as u8);
            self.log_table.set(val as usize, i as u8);
            proof {
                lemma_log_table_step(old_log, i as int);
            }
            proof {
                lemma_step_wide(val);
                lemma_table_facts();
            }
            let ghost prev = val;
            proof {
                lemma_gf_exp_step(i as int);
            }
            val = val << 1u32;
            if val & self.size != 0 {
                val = val ^ self.generator;
            }
            assert(val == gf_step_wide(prev));
        }
        let first = self.antilog_table[0];
        self.antilog_table.set(255, first);
    }

    /// Galois field multiplication
    pub fn multiply(&self, a: u8, b: u8) -> (r: u8)
        requires
            self.tables_sized(),
        ensures
            r == self.spec_mul(a, b),
    {
        if a == 0 || b == 0 {
            return 0;
        }
        let log_sum = (self.log_table[a as usize] as u32 + self.log_table[b as usize] as u32) % 255;
        self.antilog_table[log_sum as usize]
    }

    /// Galois field division; dividing a nonzero byte by zero is refused by `requires`.
    pub fn divide(&self, a: u8, b: u8) -> (r: u8)
        requires
            self.tables_sized(),
            a == 0 || b != 0,
        ensures
            r == self.spec_div(a, b),
    {
        if a == 0 {
            return 0;
        }
        let log_diff = (self.log_table[a as usize] as i32 - self.log_table[b as usize] as i32 + 255)
            % 255;
        self.antilog_table[log_diff as usize]
    }

    /// Galois field power
    pub fn power(&self, base: u8, exp: u8) -> (r: u8)
        requires
            self.tables_sized(),
        ensures
            r == self.spec_pow(base, exp),
    {
        if base == 0 {
            return 0;
        }
        let l = self.log_table[base as usize] as u32;
        assert(l * (exp as u32) <= 255 * 255) by (nonlinear_arith)
            requires
                l <= 255,
                exp <= 255,
        ;
        let log_result = (l * exp as u32) % 255;
        self.antilog_table[log_result as usize]
    }
}


/// The logarithm of a nonzero byte is below 255 and its power gives the byte back.
proof fn lemma_log_of(v: u8)
    requires
        v != 0,
    ensures
        log_lit(v) < 255,
        exp_lit(log_lit(v)) == v,
{
    lemma_log_lit_inverse();
}

/// A power below 255 is nonzero and its logarithm gives the exponent back.
proof fn lemma_exp_of(i: u8)
    requires
        i < 255,
    ensures
        exp_lit(i) != 0,
        log_lit(exp_lit(i)) == i,
{
    lemma_exp_lit_nonzero();
    lemma_exp_lit_inverse();
}

/// Products of nonzero bytes through the tables of a well-formed field.
proof fn lemma_mul_nonzero(gf: &GaloisField, a: u8, b: u8)
    requires
        gf.wf(),
        a != 0,
        b != 0,
    ensures
        gf.spec_mul(a, b) == exp_lit(((log_lit(a) as int + log_lit(b) as int) % 255) as u8),
        gf.spec_mul(a, b) != 0,
{
    lemma_log_of(a);
    lemma_log_of(b);
    let k = (log_lit(a) as int + log_lit(b) as int) % 255;
    assert(gf.log_table@[a as int] == log_lit(a));
    assert(gf.log_table@[b as int] == log_lit(b));
    assert(gf.antilog_table@[k] == gf_exp(k));
    assert((k % 255) == k);
    lemma_exp_of(k as u8);
}

/// Multiplication is commutative.
pub proof fn lemma_mul_commutative(gf: &GaloisField, a: u8, b: u8)
    requires
        gf.wf(),
    ensures
        gf.spec_mul(a, b) == gf.spec_mul(b, a),
{
}

/// Zero annihilates and one is the identity of multiplication.
pub proof fn lemma_mul_identity(gf: &GaloisField, a: u8)
    requires
        gf.wf(),
    ensures
        gf.spec_mul(a, 0) == 0,
        gf.spec_mul(0, a) == 0,
        gf.spec_mul(1, a) == a,
        gf.spec_mul(a, 1) == a,
{
    if a != 0 {
        lemma_exp_lit_first();
        lemma_exp_of(0u8);
        lemma_log_of(a);
        lemma_mul_nonzero(gf, 1, a);
        assert(log_lit(1u8) == 0);
        assert((log_lit(a) as int % 255) == log_lit(a) as int);
    }
}

/// Every nonzero byte times its reciprocal `divide(1, a)` is one.
pub proof fn lemma_mul_inverse(gf: &GaloisField, a: u8)
    requires
        gf.wf(),
        a != 0,
    ensures
        gf.spec_div(1, a) != 0,
        gf.spec_mul(a, gf.spec_div(1, a)) == 1,
{
    lemma_div_then_mul(gf, 1, a);
    lemma_mul_commutative(gf, a, gf.spec_div(1, a));
}

/// Dividing by a nonzero byte and multiplying back gives the dividend.
pub proof fn lemma_div_then_mul(gf: &GaloisField, a: u8, b: u8)
    requires
        gf.wf(),
        b != 0,
    ensures
        gf.spec_mul(gf.spec_div(a, b), b) == a,
        a != 0 ==> gf.spec_div(a, b) != 0,
{
    if a != 0 {
        lemma_log_of(a);
        lemma_log_of(b);
        let la = log_lit(a) as int;
        let lb = log_lit(b) as int;
        let k = (la - lb + 255) % 255;
        assert(gf.log_table@[a as int] == log_lit(a));
        assert(gf.log_table@[b as int] == log_lit(b));
        assert(gf.antilog_table@[k] == gf_exp(k));
        assert(k % 255 == k);
        let q = gf.spec_div(a, b);
        assert(q == exp_lit(k as u8));
        lemma_exp_of(k as u8);
        assert(log_lit(q) == k);
        lemma_mul_nonzero(gf, q, b);
        assert((k + lb) % 255 == la);
    } else {
        lemma_mul_identity(gf, b);
    }
}

/// Raising a nonzero byte to the power 0 gives one, to the power 1 gives the byte.
pub proof fn lemma_pow_small(gf: &GaloisField, b: u8)
    requires
        gf.wf(),
        b != 0,
    ensures
        gf.spec_pow(b, 0) == 1,
        gf.spec_pow(b, 1) == b,
{
    lemma_log_of(b);
    lemma_exp_lit_first();
    assert(gf.log_table@[b as int] == log_lit(b));
    assert(gf.antilog_table@[0] == gf_exp(0));
    let l = log_lit(b) as int;
    assert(gf.antilog_table@[l] == gf_exp(l));
    assert(l * 1 == l);
    assert(l % 255 == l);
}

/// Powers follow repeated multiplication: zero to any power is zero, a nonzero byte to the
/// power 0 is one, and each further factor multiplies the power by the base.
pub proof fn lemma_pow_step(gf: &GaloisField, b: u8, e: u8)
    requires
        gf.wf(),
        e < 255,
    ensures
        gf.spec_pow(0, e) == 0,
        b != 0 ==> gf.spec_pow(b, 0) == 1,
        gf.spec_pow(b, (e + 1) as u8) == gf.spec_mul(gf.spec_pow(b, e), b),
{
    if b != 0 {
        lemma_pow_small(gf, b);
        lemma_table_facts();
        assert(gf.log_table@[b as int] == gf_log(b));
        let l = log_lit(b) as int;
        assert(l < 255);
        let k = (l * e) % 255;
        assert(0 <= k < 255);
        let x = gf.antilog_table@[k];
        assert(x == gf_exp(k));
        assert(k % 255 == k);
        assert(gf_exp(k) == exp_lit(k as u8));
        assert(x != 0);
        assert(gf.log_table@[x as int] == gf_log(x));
        assert(log_lit(exp_lit(k as u8)) == k as u8);
        assert(gf.spec_pow(b, e) == x);
        assert(l * ((e + 1) as u8) == l * e + l) by (nonlinear_arith)
            requires
                e < 255,
        ;
        vstd::arithmetic::div_mod::lemma_add_mod_noop(l * e, l, 255);
        assert(l % 255 == l);
    }
}

/// Multiplication distributes over addition (XOR), on either side.
pub proof fn lemma_mul_distributes(gf: &GaloisField, a: u8, b: u8, c: u8)
    requires
        gf.wf(),
    ensures
        gf.spec_mul(a, b ^ c) == gf.spec_mul(a, b) ^ gf.spec_mul(a, c),
        gf.spec_mul(b ^ c, a) == gf.spec_mul(b, a) ^ gf.spec_mul(c, a),
{
    lemma_mul_is_pmul(gf, a, b ^ c);
    lemma_mul_is_pmul(gf, a, b);
    lemma_mul_is_pmul(gf, a, c);
    lemma_pmul_distributes(a, b, c);
    lemma_mul_commutative(gf, a, b ^ c);
    lemma_mul_commutative(gf, a, b);
    lemma_mul_commutative(gf, a, c);
}

/// Multiplication of nonzero bytes is associative: exponents add modulo 255.
#[verifier::rlimit(50)]
proof fn lemma_mul_associative_nonzero(gf: &GaloisField, a: u8, b: u8, c: u8)
    requires
        gf.wf(),
        a != 0,
        b != 0,
        c != 0,
    ensures
        gf.spec_mul(gf.spec_mul(a, b), c) == gf.spec_mul(a, gf.spec_mul(b, c)),
{
    lemma_log_of(a);
    lemma_log_of(b);
    lemma_log_of(c);
    let la = log_lit(a) as int;
    let lb = log_lit(b) as int;
    let lc = log_lit(c) as int;
    lemma_mul_nonzero(gf, a, b);
    lemma_mul_nonzero(gf, b, c);
    let ab = gf.spec_mul(a, b);
    let bc = gf.spec_mul(b, c);
    let kab = (la + lb) % 255;
    let kbc = (lb + lc) % 255;
    lemma_exp_of(kab as u8);
    lemma_exp_of(kbc as u8);
    lemma_mul_nonzero(gf, ab, c);
    lemma_mul_nonzero(gf, a, bc);
    assert((kab + lc) % 255 == (la + kbc) % 255) by {
        vstd::arithmetic::div_mod::lemma_add_mod_noop(la + lb, lc, 255);
        vstd::arithmetic::div_mod::lemma_add_mod_noop(la, lb + lc, 255);
        vstd::arithmetic::div_mod::lemma_small_mod(lc as nat, 255);
        vstd::arithmetic::div_mod::lemma_small_mod(la as nat, 255);
    }
}

/// Multiplication is associative.
pub proof fn lemma_mul_associative(gf: &GaloisField, a: u8, b: u8, c: u8)
    requires
        gf.wf(),
    ensures
        gf.spec_mul(gf.spec_mul(a, b), c) == gf.spec_mul(a, gf.spec_mul(b, c)),
{
    if a != 0 && b != 0 && c != 0 {
        lemma_mul_associative_nonzero(gf, a, b, c);
    }
}

} // verus!
