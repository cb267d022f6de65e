# osjeff_core

The logic of the OSjeff hobby operating system, verified with Verus.

`src/` is the library. Every function in it carries a contract that Verus
proves:

- `keymap`, `terminal`, `editor`, `clipboard`, `process`: PS/2 key
  translation, the shell and its commands, the text editor, the clipboard and
  the process table behind the task manager.
- `fs`: the flat filesystem image (records, directories, trash, restore,
  permanent delete) with read-after-write and subtree laws.
- `heap`: the allocator's alignment and region-fit arithmetic.
- `net`: ARP and ICMP echo replies and the Internet checksum.
- `window`: rectangle geometry and hit testing.
- `browser`, `web`: URL parsing, search URLs, HTTP bodies, the HTML-to-text
  wrapper, and the small HTML/CSS engine (DOM parser, selector matching,
  cascade, box layout).
- `kernel`: the decision half of the drivers (RTC registers, PS/2 packets,
  PCI configuration words and virtio capabilities, ATA identify data, the
  NE2000 receive ring, serial line endings, frame metrics, colour blending),
  drawing into a framebuffer image (pixels, clipped rectangles, rounded and
  translucent rectangles, RGBA images, region snapshots and fades), the
  desktop's window manager (stacking order, focus, menu, dock, dragging, key
  and click routing, the clock, editor status and task rows), the launcher's
  layouts (six-slot dock, start panel, calculator keypad, browser chrome),
  the display lists the desktop draws (start panel, browser start page,
  toolbar, address bar and scrollbar, file manager window, boot splash), the
  shell's file commands, the page fetcher's mailbox and redirects, the
  scheduler's round robin and thread frames, and the host side of
  WebAssembly guests (the WASI file layer over guest memory, clipped drawing,
  the input queue).
- `anim`: window transition phases.

`app/` is the kernel loop around the library: port I/O, the device drivers
that move bytes to and from the library's decoders, the rasterizing of the
library's display lists into a framebuffer image, the floating-point window
easing and splash progress, and the calculator.

`tests/` runs the library on concrete inputs.
