# dc34_badge

Games, light shows and console commands for the DEF CON 34 badge (a 128x128
one-bit OLED, ten RGB LEDs and five buttons), written in Verus.

`src/` is the verified library:

- `fb`: the model of the panel buffer (512 words; a pixel is lit when its bit
  is clear) and the bit-level lemmas behind it.
- `font`: the 5x7 font.
- `menu`: pixels, rectangles, glyphs and text; the LED modes and their
  frames; the badge menu screen.
- `attract`: the console Space Invaders (game, rendering, autopilot) and the
  session that the `invaders` command runs.
- `airsea`: the Air-Sea shooting gallery.
- `badge`: one frame of the full badge app as a step from state and buttons
  to the next state and the effects to perform.
- `invaders`: the standalone-firmware Space Invaders and the points it lights.
- `led_show`: rainbow, Larson scanner, solid colours and the morse timeline.
- `commands`: what the `led` and `screen` command lines ask for.

`tests/` runs the library on concrete values. `app/` holds the parts that talk
to the hardware and to the Xous services: the console commands, the badge
loop, and the LED and panel drivers.
