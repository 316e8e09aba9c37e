//! The numbers of the scene and of the game, by value.
//!
//! The library names its numbers by their bits.  Here each is held against
//! the decimal number that it is meant for: it either stands for exactly
//! that number, or lies within half a unit in its last place of it.

use crate::exact::{is_nearest_to, lemma_fraction_by_parts, lemma_nearest_by_parts};
use crate::scalar::Real;
use vstd::arithmetic::power2::{lemma2_to64, lemma2_to64_rest};
use vstd::prelude::*;

verus! {

/// Whether `a` stands for exactly the fraction `num / den`.
pub open spec fn is_exactly(a: Real, num: int, den: int) -> bool {
    &&& a.is_finite()
    &&& den > 0
    &&& a.value() * (den as real) == num as real
}

/// The numbers that place and size the obstacles of the room are what
/// their names say.
pub proof fn lemma_numbers_of_the_room()
    ensures
        is_exactly(Real { bits: crate::scene::MINUS_ONE_BITS }, -1, 1),
        is_exactly(Real { bits: crate::scene::MINUS_TWO_BITS }, -2, 1),
        is_exactly(Real { bits: crate::scene::FOUR_BITS }, 4, 1),
        is_exactly(Real { bits: crate::scene::MINUS_FOUR_BITS }, -4, 1),
        is_exactly(Real { bits: crate::scene::MINUS_SIX_BITS }, -6, 1),
        is_exactly(Real { bits: crate::scene::MINUS_SIXTEEN_BITS }, -16, 1),
        is_nearest_to(Real { bits: crate::scene::TENTH_BITS }, 1, 10),
        is_nearest_to(Real { bits: crate::scene::EIGHT_TENTHS_BITS }, 8, 10),
        is_nearest_to(Real { bits: crate::scene::NEAR_PADDLE_Z_BITS }, 387, 100),
        is_nearest_to(Real { bits: crate::scene::FAR_PADDLE_Z_BITS }, -1987, 100),
{
    lemma2_to64();
    lemma2_to64_rest();
    lemma_fraction_by_parts(
        Real { bits: crate::scene::MINUS_ONE_BITS },
        -1,
        1,
        -0x80_0000,
        0x80_0000,
    );
    lemma_fraction_by_parts(
        Real { bits: crate::scene::MINUS_TWO_BITS },
        -2,
        1,
        -0x80_0000,
        0x40_0000,
    );
    lemma_fraction_by_parts(
        Real { bits: crate::scene::FOUR_BITS },
        4,
        1,
        0x80_0000,
        0x20_0000,
    );
    lemma_fraction_by_parts(
        Real { bits: crate::scene::MINUS_FOUR_BITS },
        -4,
        1,
        -0x80_0000,
        0x20_0000,
    );
    lemma_fraction_by_parts(
        Real { bits: crate::scene::MINUS_SIX_BITS },
        -6,
        1,
        -0xc0_0000,
        0x20_0000,
    );
    lemma_fraction_by_parts(
        Real { bits: crate::scene::MINUS_SIXTEEN_BITS },
        -16,
        1,
        -0x80_0000,
        0x8_0000,
    );
    lemma_nearest_by_parts(
        Real { bits: crate::scene::TENTH_BITS },
        1,
        10,
        0xcc_cccd,
        0x800_0000,
    );
    lemma_nearest_by_parts(
        Real { bits: crate::scene::EIGHT_TENTHS_BITS },
        8,
        10,
        0xcc_cccd,
        0x100_0000,
    );
    lemma_nearest_by_parts(
        Real { bits: crate::scene::NEAR_PADDLE_Z_BITS },
        387,
        100,
        0xf7_ae14,
        0x40_0000,
    );
    lemma_nearest_by_parts(
        Real { bits: crate::scene::FAR_PADDLE_Z_BITS },
        -1987,
        100,
        -0x9e_f5c3,
        0x8_0000,
    );
}

/// The numbers that move the ball and the paddles are what their names say.
pub proof fn lemma_numbers_of_the_motion()
    ensures
        is_nearest_to(Real { bits: crate::motion::PADDLE_FRICTION_BITS }, 7, 10),
        is_exactly(Real { bits: crate::motion::PADDLE_ACCELERATION_BITS }, 2, 1),
        is_exactly(Real { bits: crate::motion::BALL_SPEED_X_BITS }, 3, 2),
        is_exactly(Real { bits: crate::motion::BALL_SPEED_Y_BITS }, 9, 2),
        is_nearest_to(Real { bits: crate::ai::EPSILON_BITS }, 1, 10),
{
    lemma2_to64();
    lemma2_to64_rest();
    lemma_nearest_by_parts(
        Real { bits: crate::motion::PADDLE_FRICTION_BITS },
        7,
        10,
        0xb3_3333,
        0x100_0000,
    );
    lemma_fraction_by_parts(
        Real { bits: crate::motion::PADDLE_ACCELERATION_BITS },
        2,
        1,
        0x80_0000,
        0x40_0000,
    );
    lemma_fraction_by_parts(
        Real { bits: crate::motion::BALL_SPEED_X_BITS },
        3,
        2,
        0xc0_0000,
        0x80_0000,
    );
    lemma_fraction_by_parts(
        Real { bits: crate::motion::BALL_SPEED_Y_BITS },
        9,
        2,
        0x90_0000,
        0x20_0000,
    );
    lemma_nearest_by_parts(
        Real { bits: crate::ai::EPSILON_BITS },
        1,
        10,
        0xcc_cccd,
        0x800_0000,
    );
}

/// The numbers of the tracer, of the checkerboard and of the one-room scenes
/// are what their names say.
pub proof fn lemma_numbers_of_the_tracer()
    ensures
        is_exactly(Real { bits: crate::render::batch::BRIGHTEST_BITS }, 255, 1),
        is_nearest_to(Real { bits: crate::render::scene::FIXED_NEAR_PADDLE_Z_BITS }, 39, 10),
        is_nearest_to(Real { bits: crate::render::scene::FIXED_FAR_PADDLE_Z_BITS }, -199, 10),
        is_nearest_to(Real { bits: crate::render::tracer::MIN_TOI_BITS }, 1, 1000),
        is_exactly(Real { bits: crate::render::walls::CHECKER_SHIFT_BITS }, 1000, 1),
        is_exactly(Real { bits: crate::render::walls::CHECKER_SCALE_BITS }, 3, 2),
        is_exactly(Real { bits: crate::simd::scene::MINUS_EIGHT_BITS }, -8, 1),
        is_nearest_to(Real { bits: crate::simd::scene::BALL_Y_BITS }, 7, 10),
{
    lemma2_to64();
    lemma2_to64_rest();
    lemma_fraction_by_parts(
        Real { bits: crate::render::batch::BRIGHTEST_BITS },
        255,
        1,
        0xff_0000,
        0x1_0000,
    );
    lemma_nearest_by_parts(
        Real { bits: crate::render::scene::FIXED_NEAR_PADDLE_Z_BITS },
        39,
        10,
        0xf9_999a,
        0x40_0000,
    );
    lemma_nearest_by_parts(
        Real { bits: crate::render::scene::FIXED_FAR_PADDLE_Z_BITS },
        -199,
        10,
        -0x9f_3333,
        0x8_0000,
    );
    lemma_nearest_by_parts(
        Real { bits: crate::render::tracer::MIN_TOI_BITS },
        1,
        1000,
        0x83_126f,
        0x2_0000_0000,
    );
    lemma_fraction_by_parts(
        Real { bits: crate::render::walls::CHECKER_SHIFT_BITS },
        1000,
        1,
        0xfa_0000,
        0x4000,
    );
    lemma_fraction_by_parts(
        Real { bits: crate::render::walls::CHECKER_SCALE_BITS },
        3,
        2,
        0xc0_0000,
        0x80_0000,
    );
    lemma_fraction_by_parts(
        Real { bits: crate::simd::scene::MINUS_EIGHT_BITS },
        -8,
        1,
        -0x80_0000,
        0x10_0000,
    );
    lemma_nearest_by_parts(
        Real { bits: crate::simd::scene::BALL_Y_BITS },
        7,
        10,
        0xb3_3333,
        0x100_0000,
    );
}

/// The times and margins of the game are what their names say.
pub proof fn lemma_numbers_of_the_game()
    ensures
        is_nearest_to(Real { bits: crate::game_driver::MENU_CHANGE_TIMEOUT_BITS }, 2, 10),
        is_exactly(Real { bits: crate::game_driver::COLLISION_NOTICE_TIMEOUT_BITS }, 1, 1),
        is_nearest_to(Real { bits: crate::game_driver::TOUCH_MARGIN_BITS }, 2, 10),
        is_nearest_to(Real { bits: crate::game_driver::MINUS_TOUCH_MARGIN_BITS }, -2, 10),
{
    lemma2_to64();
    lemma2_to64_rest();
    lemma_nearest_by_parts(
        Real { bits: crate::game_driver::MENU_CHANGE_TIMEOUT_BITS },
        2,
        10,
        0xcc_cccd,
        0x400_0000,
    );
    lemma_fraction_by_parts(
        Real { bits: crate::game_driver::COLLISION_NOTICE_TIMEOUT_BITS },
        1,
        1,
        0x80_0000,
        0x80_0000,
    );
    lemma_nearest_by_parts(
        Real { bits: crate::game_driver::TOUCH_MARGIN_BITS },
        2,
        10,
        0xcc_cccd,
        0x400_0000,
    );
    lemma_nearest_by_parts(
        Real { bits: crate::game_driver::MINUS_TOUCH_MARGIN_BITS },
        -2,
        10,
        -0xcc_cccd,
        0x400_0000,
    );
}

} // verus!
