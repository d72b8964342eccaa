//! The frame-generation step: how many frames to ask for, and the run of the
//! generator.
use vstd::prelude::*;
use crate::command::{texts, Requirements};
use crate::decimal::{decimal_text_of, in_range, round_to_multiple, Decimal, NonZeroDecimal, ONE};
use crate::error::Error;
use crate::fps::FPS;

verus! {

/// Frames to generate for `duration` units at 60 frames per second: the
/// product rounded to a whole number, ties to even.
pub open spec fn frame_count(duration: int) -> int {
    round_to_multiple(60 * duration, ONE as int) / ONE as int
}

/// Arguments of the generator's run.
pub open spec fn generator_args(
    model: Seq<char>,
    input_dir: Seq<char>,
    output_dir: Seq<char>,
    count: Seq<char>,
    extra: Seq<Seq<char>>,
) -> Seq<Seq<char>> {
    seq!["-m"@, model, "-i"@, input_dir, "-o"@, output_dir, "-n"@, count] + extra
}

/// The outside program that generates intermediate frames.
#[derive(Debug, Clone)]
pub struct FrameGenerator {
    pub binary: String,
    pub model: String,
    pub fps: FPS,
    pub input_dir: String,
    pub output_dir: String,
    pub extra_args: Vec<String>,
}

impl FrameGenerator {
    /// The frame count for the generator to target: frame rate times
    /// duration, rounded to a whole number. Fails where that does not fit.
    pub fn frame_count(&self, duration: NonZeroDecimal) -> (r: Result<Decimal, Error>)
        requires
            duration.wf(),
        ensures
            r is Ok <==> in_range(frame_count(duration@)),
            r matches Ok(c) ==> c.wf() && c@ == frame_count(duration@) * ONE
                && c.spec_mantissa() == frame_count(duration@) && c.spec_scale() == 0,
            r is Err ==> (r matches Err(Error::MultiplicationOverflow(a, b)) && a@ == 60 * ONE && b@
                == duration@),
    {
        let fps = self.fps.non_zero_usize() as u16;
        let fps_decimal = Decimal::from_u32(fps as u32);
        let d = duration.get();
        match d.mul_round(fps) {
            Some(c) => {
                proof {
                    assert(round_to_multiple(d@ * 60, ONE as int) % (ONE as int) == 0) by {
                        crate::decimal::lemma_round_bounds(d@ * 60, ONE as int);
                    }
                    assert(d@ * 60 == 60 * d@);
                    vstd::arithmetic::div_mod::lemma_fundamental_div_mod(
                        round_to_multiple(d@ * 60, ONE as int),
                        ONE as int,
                    );
                }
                Ok(c)
            },
            None => Err(Error::MultiplicationOverflow(fps_decimal, d)),
        }
    }

    /// The generator's run for a window of `duration`; the output directory
    /// must be emptied first.
    pub fn execute(&self, duration: NonZeroDecimal) -> (r: Result<Requirements, Error>)
        requires
            duration.wf(),
        ensures
            r is Ok <==> in_range(frame_count(duration@)),
            r is Err ==> (r matches Err(Error::MultiplicationOverflow(a, b)) && a@ == 60 * ONE && b@
                == duration@),
            r matches Ok(q) ==> q.spec_parts() == (
                self.binary@,
                generator_args(
                    self.model@,
                    self.input_dir@,
                    self.output_dir@,
                    decimal_text_of(frame_count(duration@), 0),
                    texts(self.extra_args@),
                ),
                None::<Seq<char>>,
            ),
    {
        let count = self.frame_count(duration)?;
        let mut args = vec![
            "-m".to_string(),
            self.model.clone(),
            "-i".to_string(),
            self.input_dir.clone(),
            "-o".to_string(),
            self.output_dir.clone(),
            "-n".to_string(),
            count.to_text(),
        ];
        let ghost head = texts(args@);
        let mut i: usize = 0;
        while i < self.extra_args.len()
            invariant
                0 <= i <= self.extra_args.len(),
                texts(args@) == head + texts(self.extra_args@).take(i as int),
            decreases self.extra_args.len() - i,
        {
            let ghost before = args@;
            args.push(self.extra_args[i].clone());
            assert(texts(args@) =~= texts(before).push(self.extra_args@[i as int]@));
            assert(texts(self.extra_args@).take(i + 1) =~= texts(self.extra_args@).take(
                i as int,
            ).push(self.extra_args@[i as int]@));
            i = i + 1;
        }
        assert(texts(self.extra_args@).take(i as int) =~= texts(self.extra_args@));
        assert(head =~= seq![
            "-m"@,
            self.model@,
            "-i"@,
            self.input_dir@,
            "-o"@,
            self.output_dir@,
            "-n"@,
            decimal_text_of(frame_count(duration@), 0),
        ]);
        Ok(Requirements { binary: self.binary.clone(), args, current_dir: None })
    }
}

} // verus!
