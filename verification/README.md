# cfd_solver

A solver for two-dimensional incompressible flow in vorticity-streamfunction form,
written in Verus. Two scenarios: the lid-driven cavity at high Reynolds numbers, and the
flow past an obstacle in a channel, which sheds a vortex street.

    dw/dt + (u . grad) w = nu lap w,    lap psi = -w,    u = dpsi/dy,  v = -dpsi/dx

Advection is the Arakawa Jacobian, diffusion the 5-point Laplacian, time integration
SSP-RK3.

| | `cavity` | `cylinder` |
|---|---|---|
| domain | square | channel, four times as long as high |
| grid | `n x n` | `4(n-1)+1` by `n` |
| driving | moving top lid | uniform inflow |
| walls | no slip (Thom) | free slip, outflow without change along the stream |
| obstacle | none | solid nodes, no slip (mean of Thom over the fluid neighbours) |
| Poisson | sine transforms (`n - 1` a power of two) or red-black SOR | red-black SOR |
| viscosity | `U L / Re` | `U D / Re` |

The cylinder stands half a cell off the middle and a weak vortex behind it seeds the wake,
so that the symmetry breaks.

## Layout

- `src/` is the verified library.
  - `scalar.rs`: the arithmetic that everything is generic over; `fixed.rs`: an instance.
  - `model.rs`, `channel_model.rs`: the schemes as formulas; `kernels.rs`, `solver.rs`,
    `channel.rs`: the code that computes them, row by row on a rayon pool (`parallel.rs`,
    `grid.rs`, `plane.rs`).
  - `fft.rs`, `poisson.rs`: the transform and the direct solver.
  - `run.rs`: step lengths and frames; `config.rs`: the command line; `geometry.rs`:
    obstacles; `text.rs`: numbers as text; `viz.rs`: which interpreter draws the figures.
  - `laws/`: what holds of the schemes: the Jacobian conserves energy and enstrophy, the
    fast transform is the Fourier transform, the sine transform undoes itself, the direct
    solver is exact and agrees with relaxation where that has settled, the order within a
    colour does not matter, walls and bodies are streamlines, a free stream stays, steps
    land on frames.
- `tests/` runs the library, in doubles and in fixed point.
- `app/` is the program: doubles, files, printing, figures.

Contracts state results as formulas over the number type. For doubles that means the
same operations in the same order; most laws read the same formulas over the reals. A
number type promises in `Scalar::lawful` and `Scalar::faithful` that its operators are
those of the formulas, that comparison orders its numbers and that hundredths keep their
digits. Of the fixed-point type this is proved; of the doubles in `app/` it is taken on
trust.

Of the sine and the cosine the laws use what `Trigonometry::valid` in `laws/exact.rs`
lists: the addition formulas, the value at the half turn, the sign and the slope. That
functions with these properties exist is not proved here. So every law with a sine in it
(the fast transform, the sine transform, the direct solver) has
`trigonometry().valid()` among its premises.

## Options

Each flag takes one value: `--scenario`, `--n`, `--re`, `--tend`, `--cfl`, `--out-every`,
`--threads`, `--solver` (`auto`, `fft`, `sor`), `--view` (`none`, `save`, `show`),
`--outdir`.

Output: `meta.txt`, `diagnostics.csv` and `fields/frame_XXXX.bin`, four blocks
(vorticity, streamfunction, u, v) of little-endian doubles, row by row.
