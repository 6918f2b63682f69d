# rustle_core

The integer side of an audio feature pipeline (RMS energy, STFT / mel
spectrogram, delta features), written in Verus.

- `src/framing.rs`: centre padding, the frame count and frame extraction
  shared by RMS energy and the STFT; laws on frame samples, frame overlap,
  the centred frame count, frame midpoints, hop-aligned suffixes (chunks cut
  on the frame grid give the whole signal's later frames) and the halo a
  centred frame reads, and centred framing split into hop-aligned chunks
  with a halo.
- `src/window.rs`: placing an analysis window (no longer than the buffer) in
  the middle of an FFT buffer, and the number of rFFT bins.
- `src/temporal.rs`: the parameter check of the delta features, the choice
  of the fitting window for every frame of a row, and the row assembly that
  hands each window to the fit, row by row; a chunk with `width / 2` frames of
  context hands the fit the same windows as the whole row, and with a fit
  that depends only on its window gives the same values.
- `app/`: the Python extension module (pyo3, numpy), and the floating-point
  arithmetic (mel scale, Hann window values, real FFT, least-squares fits)
  built on the verified layout.
